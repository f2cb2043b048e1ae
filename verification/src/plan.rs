//! Plans for repeated products with the same right-hand matrix.
//!
//! A plan packs `B` once, in the layout that the packed path reads, and is then applied
//! to any number of left-hand matrices. It gives the same bits as a single product: each
//! output is still one accumulator along `k`.
use crate::aligned::AlignedVec;
use crate::error::Error;
use crate::math::{lemma_round_down, lemma_row_fits, max_usize, min_usize};
use crate::ops::matmul::{
    at, columns, entry, fused_limit, held, holds, is_packed, is_product, is_product_of,
    law_paths_agree, law_row_blocks_join, lemma_all_blocks, lemma_beside, lemma_limits,
    lemma_panel_fits, lemma_slot, lemma_slot_unique, pack_b, pack_strips, packed_at, packed_rows,
    product_block, row, slot, strip_limit, tails,
};
use crate::scalar::{Scalar, Word};
use crate::view::{lemma_size_fits, MatRef};
use vstd::layout::size_of;
use vstd::prelude::*;

verus! {

/// The layout of the packed product for one element type.
pub trait PackedKernel: Scalar {
    /// Columns of one strip.
    const STRIP: usize;

    /// Columns of one vector.
    const LANES: usize;

    /// Size of an element in bytes.
    const BYTES: usize;

    /// A strip is a whole number of vectors, a column block a whole number of strips.
    proof fn layout()
        ensures
            0 < Self::LANES <= Self::STRIP <= 64,
            Self::STRIP % Self::LANES == 0,
            128int % Self::STRIP as int == 0,
            0 < Self::BYTES <= 64,
    ;
}

impl PackedKernel for Word {
    const STRIP: usize = 16;

    const LANES: usize = 4;

    const BYTES: usize = 8;

    proof fn layout() {
    }
}

/// A packed panel of `strips` strips, the first of which begins at column `jb`.
struct Panel<T> {
    jb: usize,
    strips: usize,
    packed: AlignedVec<T>,
}

/// A packed right-hand matrix.
pub struct MatmulPlan<T: PackedKernel> {
    k: usize,
    n: usize,
    n_strip: usize,
    panels: Vec<Panel<T>>,
    tail: Option<AlignedVec<T>>,
    source: Ghost<Seq<Seq<T>>>,
}

impl<T: PackedKernel> Panel<T> {
    spec fn wf(&self, cols: Seq<Seq<T>>, k: int, n_strip: int) -> bool {
        &&& self.packed.wf()
        &&& self.packed@.len() == k * (self.strips * T::STRIP)
        &&& self.jb + self.strips * T::STRIP <= n_strip
        &&& is_packed(self.packed@, cols, k, T::STRIP as int, self.jb as int, self.strips as int)
    }

    spec fn end(&self) -> int {
        self.jb + self.strips * T::STRIP
    }
}

/// The panels lie side by side, from column 0 to column `upto`.
spec fn side_by_side<T: PackedKernel>(panels: Seq<Panel<T>>, upto: int) -> bool {
    &&& panels.len() == 0 ==> upto == 0
    &&& panels.len() > 0 ==> panels[0].jb == 0 && panels.last().end() == upto
    &&& forall|i: int|
        0 <= i < panels.len() - 1 ==> (#[trigger] panels[i]).end() == panels[i + 1].jb
}

impl<T: PackedKernel> MatmulPlan<T> {
    /// The panels and the tail hold the columns of the matrix that was packed.
    pub closed spec fn wf(&self) -> bool {
        &&& 0 < self.k
        &&& self.k * self.n <= usize::MAX
        &&& self.n_strip == strip_limit::<T>(self.n as int)
        &&& self.source@.len() == self.n
        &&& forall|i: int|
            0 <= i < self.panels@.len() ==> (#[trigger] self.panels@[i]).wf(
                self.source@,
                self.k as int,
                self.n_strip as int,
            )
        &&& side_by_side(self.panels@, self.n_strip as int)
        &&& self.tail is Some <==> self.n_strip < self.n
        &&& self.tail matches Some(t) ==> {
            &&& t.wf()
            &&& t@.len() == self.k * (self.n - self.n_strip)
            &&& holds(
                t@,
                self.n - self.n_strip,
                self.n_strip as int,
                self.source@,
                self.k as int,
                self.n_strip as int,
                self.n as int,
            )
        }
    }

    /// Number of rows of the packed matrix.
    pub closed spec fn depth(&self) -> int {
        self.k as int
    }

    /// Number of columns of the packed matrix.
    pub closed spec fn width(&self) -> int {
        self.n as int
    }

    /// The columns of the packed matrix.
    pub closed spec fn source(&self) -> Seq<Seq<T>> {
        self.source@
    }

    /// `c` is the product of `a` and the packed matrix; the number of rows follows from the
    /// length of `a`.
    pub open spec fn gives(&self, a: Seq<T>, c: Seq<T>) -> bool {
        is_product_of(
            a,
            self.source(),
            a.len() as int / self.depth(),
            self.depth(),
            self.width(),
            c,
        )
    }

    /// Packs the matrix `b`.
    ///
    /// A matrix without rows is refused: the number of rows of `A` could not be told from
    /// its length.
    pub fn new(b: &MatRef<'_, T>) -> (r: Result<Self, Error>)
        requires
            b.wf(),
        ensures
            r is Ok <==> b.height() > 0,
            b.height() == 0 ==> r == Err::<Self, Error>(
                Error::NotPositive {
                    op: "MatmulPlan::new",
                    what: "k（k=0 时无法从 a 的长度推出 m）",
                    value: 0,
                },
            ),
            r matches Ok(plan) ==> {
                &&& plan.wf()
                &&& plan.depth() == b.height()
                &&& plan.width() == b.width()
                &&& plan.source() == b.columns()
            },
    {
        let k: usize = b.rows();
        let n: usize = b.cols();
        if k == 0 {
            return Err(
                Error::NotPositive {
                    op: "MatmulPlan::new",
                    what: "k（k=0 时无法从 a 的长度推出 m）",
                    value: 0,
                },
            );
        }
        let ghost cols = b.columns();
        let ghost strip = T::STRIP as int;
        proof {
            lemma_size_fits(*b);
            T::layout();
            lemma_limits::<T>(n as int);
        }
        let strips_total: usize = n / T::STRIP;
        let n_strip: usize = strips_total * T::STRIP;
        let per_panel: usize = max_usize(pack_strips::<T>(k), 1);
        let mut panels: Vec<Panel<T>> = Vec::new();
        let mut s0: usize = 0;
        while s0 < strips_total
            invariant
                0 < strip <= 64,
                strip == T::STRIP,
                0 < per_panel <= 256,
                0 < k,
                k == b.height(),
                n == b.width(),
                b.wf(),
                k * n <= usize::MAX,
                cols == b.columns(),
                s0 <= strips_total,
                strips_total == n as int / strip,
                n_strip == strip_limit::<T>(n as int),
                n_strip == strips_total * strip,
                side_by_side(panels@, s0 * strip),
                forall|i: int|
                    0 <= i < panels@.len() ==> (#[trigger] panels@[i]).wf(
                        cols,
                        k as int,
                        n_strip as int,
                    ),
            decreases strips_total - s0,
        {
            let strips: usize = min_usize(per_panel, strips_total - s0);
            proof {
                lemma_panel_fits(
                    s0 as int,
                    strips as int,
                    strips_total as int,
                    strip,
                    k as int,
                    n as int,
                );
            }
            let jb: usize = s0 * T::STRIP;
            let mut packed: AlignedVec<T> = AlignedVec::new(k * (strips * T::STRIP));
            pack_panel(k, n, jb, strips, b, packed.as_mut_slice());
            let ghost before = panels@;
            let panel = Panel { jb, strips, packed };
            panels.push(panel);
            proof {
                assert(panels@ == before.push(panel));
                assert forall|i: int| 0 <= i < panels@.len() - 1 implies (
                #[trigger] panels@[i]).end() == panels@[i + 1].jb by {
                    if i < before.len() - 1 {
                        assert(before[i].end() == before[i + 1].jb);
                    }
                }
            }
            s0 = s0 + strips;
        }
        let tail_cols: usize = n - n_strip;
        let tail: Option<AlignedVec<T>> = if tail_cols == 0 {
            None
        } else {
            proof {
                assert(k * tail_cols <= k * n) by (nonlinear_arith)
                    requires
                        0 <= k,
                        0 <= tail_cols <= n,
                ;
            }
            let mut t: AlignedVec<T> = AlignedVec::new(k * tail_cols);
            gather_columns(b, k, n_strip, tail_cols, t.as_mut_slice());
            Some(t)
        };
        Ok(MatmulPlan { k, n, n_strip, panels, tail, source: Ghost(cols) })
    }

    /// Packs the row-major `k × n` matrix `b`.
    pub fn from_row_major(b: &[T], k: usize, n: usize) -> (r: Result<Self, Error>)
        ensures
            r is Ok <==> b@.len() == k * n && k > 0,
            k * n > usize::MAX ==> r == Err::<Self, Error>(
                Error::Overflow { op: "MatRef::row_major", what: "rows×cols" },
            ),
            k * n <= usize::MAX && b@.len() != k * n ==> r == Err::<Self, Error>(
                Error::Shape {
                    op: "MatRef::row_major",
                    what: "data",
                    expected: (k * n) as usize,
                    got: b@.len() as usize,
                },
            ),
            b@.len() == k * n && k == 0 ==> r == Err::<Self, Error>(
                Error::NotPositive {
                    op: "MatmulPlan::new",
                    what: "k（k=0 时无法从 a 的长度推出 m）",
                    value: 0,
                },
            ),
            r matches Ok(plan) ==> {
                &&& plan.wf()
                &&& plan.depth() == k
                &&& plan.width() == n
                &&& plan.source() == columns(b@, k as int, n as int)
            },
    {
        match MatRef::row_major(b, k, n) {
            Err(e) => Err(e),
            Ok(view) => {
                proof {
                    assert(b.len() == b@.len());
                    assert(view.columns() =~= columns(b@, k as int, n as int)) by {
                        assert forall|j: int| 0 <= j < n implies view.columns()[j] == columns(
                            b@,
                            k as int,
                            n as int,
                        )[j] by {
                            assert(view.columns()[j] =~= columns(b@, k as int, n as int)[j]);
                        }
                    }
                }
                MatmulPlan::new(&view)
            },
        }
    }

    /// Number of rows of the packed matrix.
    pub fn k(&self) -> (r: usize)
        ensures
            r == self.depth(),
            self.wf() ==> r > 0,
    {
        self.k
    }

    /// Number of columns of the packed matrix.
    pub fn n(&self) -> (r: usize)
        ensures
            r == self.width(),
    {
        self.n
    }

    /// Bytes that the packed matrix takes.
    pub fn packed_bytes(&self) -> (r: usize)
        requires
            self.wf(),
            self.depth() * self.width() * size_of::<T>() <= usize::MAX,
        ensures
            r == self.depth() * self.width() * size_of::<T>(),
    {
        let mut elems: usize = 0;
        let mut i: usize = 0;
        proof {
            lemma_limits::<T>(self.n as int);
        }
        while i < self.panels.len()
            invariant
                self.wf(),
                i <= self.panels@.len(),
                i > 0 ==> elems == self.k * self.panels@[i - 1].end(),
                i == 0 ==> elems == 0,
            decreases self.panels@.len() - i,
        {
            proof {
                let panel = self.panels@[i as int];
                lemma_limits::<T>(self.n as int);
                if i > 0 {
                    assert(self.panels@[i - 1].end() == panel.jb);
                }
                assert(panel.wf(self.source@, self.k as int, self.n_strip as int));
                assert(self.k * panel.end() == self.k * panel.jb + self.k * (panel.strips
                    * T::STRIP)) by (nonlinear_arith)
                    requires
                        panel.end() == panel.jb + panel.strips * T::STRIP,
                ;
                assert(self.k * panel.end() <= self.k * self.n) by (nonlinear_arith)
                    requires
                        panel.end() <= self.n,
                        0 <= self.k,
                ;
                if i == 0 {
                    assert(self.k * panel.jb == 0) by (nonlinear_arith)
                        requires
                            panel.jb == 0,
                    ;
                }
            }
            elems = elems + self.panels[i].packed.len();
            i = i + 1;
        }
        proof {
            assert(self.k * self.n_strip + self.k * (self.n - self.n_strip) == self.k * self.n)
                by (nonlinear_arith);
            if self.panels@.len() == 0 {
                assert(self.k * self.n_strip == 0) by (nonlinear_arith)
                    requires
                        self.n_strip == 0,
                ;
            }
            if self.n_strip == self.n {
                assert(self.k * (self.n - self.n_strip) == 0) by (nonlinear_arith)
                    requires
                        self.n == self.n_strip,
                ;
            }
        }
        let rest: usize = match &self.tail {
            Some(t) => t.len(),
            None => 0,
        };
        (elems + rest) * core::mem::size_of::<T>()
    }

    /// The number of rows of `a`: its length has to be a multiple of `k`.
    fn rows_of(&self, op: &'static str, a: &[T]) -> (r: Result<usize, Error>)
        requires
            self.wf(),
        ensures
            r == rows_result(op, a@.len() as int, self.depth()),
            r matches Ok(m) ==> m == a@.len() as int / self.depth() && m * self.depth()
                == a@.len(),
    {
        proof {
            lemma_round_down(a@.len() as int, self.k as int);
            assert(a.len() == a@.len());
        }
        if a.len() % self.k != 0 {
            proof {
                vstd::arithmetic::div_mod::lemma_fundamental_div_mod(
                    a@.len() as int,
                    self.k as int,
                );
            }
            return Err(
                Error::Shape {
                    op,
                    what: "a（长度必须是 k 的整数倍）",
                    expected: a.len() / self.k * self.k,
                    got: a.len(),
                },
            );
        }
        proof {
            vstd::arithmetic::div_mod::lemma_fundamental_div_mod(a@.len() as int, self.k as int);
            assert(self.k * (a@.len() as int / self.k as int) == (a@.len() as int / self.k as int)
                * self.k) by (nonlinear_arith);
        }
        Ok(a.len() / self.k)
    }

    /// `C = A · B` in a fresh buffer; the number of rows follows from the length of `a`.
    pub fn run(&self, a: &[T]) -> (r: Result<AlignedVec<T>, Error>)
        requires
            self.wf(),
        ensures
            match r {
                Ok(c) => {
                    &&& run_result("MatmulPlan::run", a@.len() as int, self.depth(), self.width())
                        is Ok
                    &&& c.wf()
                    &&& self.gives(a@, c@)
                },
                Err(e) => run_result(
                    "MatmulPlan::run",
                    a@.len() as int,
                    self.depth(),
                    self.width(),
                ) == Err::<usize, Error>(e),
            },
    {
        let m: usize = match self.rows_of("MatmulPlan::run", a) {
            Ok(m) => m,
            Err(e) => return Err(e),
        };
        let len: usize = match m.checked_mul(self.n) {
            Some(len) => len,
            None => return Err(Error::Overflow { op: "MatmulPlan::run", what: "m×n" }),
        };
        let mut c: AlignedVec<T> = AlignedVec::new(len);
        self.run_rows_into(a, c.as_mut_slice());
        Ok(c)
    }

    /// `C = A · B` into `c`; the number of rows follows from the length of `a`.
    ///
    /// On an error `c` is left alone.
    pub fn run_into(&self, a: &[T], c: &mut [T]) -> (r: Result<(), Error>)
        requires
            self.wf(),
        ensures
            r == run_into_result(
                a@.len() as int,
                self.depth(),
                self.width(),
                old(c)@.len() as int,
            ),
            r is Ok ==> self.gives(a@, final(c)@),
            r is Err ==> final(c)@ == old(c)@,
    {
        let m: usize = match self.rows_of("MatmulPlan::run_into", a) {
            Ok(m) => m,
            Err(e) => return Err(e),
        };
        let want: usize = match m.checked_mul(self.n) {
            Some(len) => len,
            None => return Err(Error::Overflow { op: "MatmulPlan::run_into", what: "m×n" }),
        };
        proof {
            assert(c.len() == c@.len());
        }
        if c.len() != want {
            return Err(
                Error::Shape {
                    op: "MatmulPlan::run_into",
                    what: "c",
                    expected: want,
                    got: c.len(),
                },
            );
        }
        self.run_rows_into(a, c);
        Ok(())
    }

    /// The whole rows that are given, and nothing else: no checks, no packing.
    pub fn run_rows_into(&self, a: &[T], c: &mut [T])
        requires
            self.wf(),
            old(c)@.len() == a@.len() as int / self.depth() * self.width(),
        ensures
            self.gives(a@, final(c)@),
    {
        let ghost given = a@;
        let m: usize = a.len() / self.k;
        proof {
            vstd::arithmetic::div_mod::lemma_fundamental_div_mod(a@.len() as int, self.k as int);
            assert(a.len() == a@.len());
            assert(m * self.k == self.k * m) by (nonlinear_arith);
        }
        let (a, _) = a.split_at(m * self.k);
        let ghost (mm, nn, kk) = (m as int, self.n as int, self.k as int);
        let ghost cols = self.source@;
        let ghost lim = fused_limit::<T>(nn);
        let ghost c0 = c@;
        proof {
            T::layout();
            lemma_limits::<T>(nn);
        }
        let mut i: usize = 0;
        while i < self.panels.len()
            invariant
                self.wf(),
                i <= self.panels@.len(),
                mm == m,
                nn == self.n,
                kk == self.k,
                cols == self.source@,
                lim == fused_limit::<T>(nn),
                a@.len() == m * self.k,
                c@.len() == m * self.n,
                product_block(
                    c0,
                    c@,
                    nn,
                    a@,
                    kk,
                    cols,
                    lim,
                    0,
                    mm,
                    0,
                    if i == 0 {
                        0
                    } else {
                        self.panels@[i - 1].end()
                    },
                ),
            decreases self.panels@.len() - i,
        {
            let panel = &self.panels[i];
            proof {
                assert(panel.wf(cols, kk, self.n_strip as int));
                if i > 0 {
                    assert(self.panels@[i - 1].end() == panel.jb);
                }
                assert(0 <= panel.strips * T::STRIP) by (nonlinear_arith)
                    requires
                        0 <= panel.strips,
                        0 <= T::STRIP,
                ;
            }
            let ghost c1 = c@;
            packed_rows(
                m,
                self.k,
                self.n,
                panel.jb,
                panel.strips,
                panel.packed.as_slice(),
                a,
                c,
                Ghost(cols),
            );
            proof {
                lemma_beside(
                    c0,
                    c1,
                    c@,
                    nn,
                    a@,
                    kk,
                    cols,
                    lim,
                    0,
                    mm,
                    0,
                    panel.jb as int,
                    panel.end(),
                );
            }
            i = i + 1;
        }
        let ghost c1 = c@;
        match &self.tail {
            Some(tail) => {
                tails(
                    0,
                    m,
                    self.n_strip,
                    self.n,
                    T::LANES,
                    tail.as_slice(),
                    self.n_strip,
                    self.n - self.n_strip,
                    a,
                    self.k,
                    c,
                    self.n,
                    Ghost(mm),
                    Ghost(cols),
                );
                proof {
                    lemma_beside(
                        c0,
                        c1,
                        c@,
                        nn,
                        a@,
                        kk,
                        cols,
                        lim,
                        0,
                        mm,
                        0,
                        self.n_strip as int,
                        nn,
                    );
                }
            },
            None => {},
        }
        proof {
            lemma_all_blocks(c0, c@, mm, nn, a@, kk, cols);
            assert forall|i: int, j: int| 0 <= i < mm && 0 <= j < nn implies #[trigger] at(
                c@,
                nn,
                i,
                j,
            ) == entry(row(given, kk, i), cols[j], kk, j, lim) by {
                lemma_row_fits(i, mm, kk);
                assert(row(given, kk, i) =~= row(a@, kk, i));
            }
        }
    }
}

/// The number of rows told from the length of `a`.
pub open spec fn rows_result(op: &'static str, len: int, k: int) -> Result<usize, Error> {
    if len % k == 0 {
        Ok((len / k) as usize)
    } else {
        Err(
            Error::Shape {
                op,
                what: "a（长度必须是 k 的整数倍）",
                expected: (len / k * k) as usize,
                got: len as usize,
            },
        )
    }
}

/// The number of outputs, or the reason why there is none.
pub open spec fn run_result(op: &'static str, len: int, k: int, n: int) -> Result<usize, Error> {
    match rows_result(op, len, k) {
        Err(e) => Err(e),
        Ok(m) => if len / k * n <= usize::MAX {
            Ok((len / k * n) as usize)
        } else {
            Err(Error::Overflow { op, what: "m×n" })
        },
    }
}

/// What [`MatmulPlan::run_into`] returns.
pub open spec fn run_into_result(len: int, k: int, n: int, c_len: int) -> Result<(), Error> {
    match run_result("MatmulPlan::run_into", len, k, n) {
        Err(e) => Err(e),
        Ok(want) => if c_len == want {
            Ok(())
        } else {
            Err(
                Error::Shape {
                    op: "MatmulPlan::run_into",
                    what: "c",
                    expected: want,
                    got: c_len as usize,
                },
            )
        },
    }
}

/// Collects columns `[j0, j0 + cols)` of the first `k` rows of `b`, whatever its layout, into
/// a row-major `k × cols` matrix; what lies behind it is left alone.
fn gather_columns<T: Copy>(b: &MatRef<'_, T>, k: usize, j0: usize, cols: usize, dst: &mut [T])
    requires
        b.wf(),
        k <= b.height(),
        j0 + cols <= b.width(),
        k * cols <= old(dst)@.len(),
    ensures
        final(dst)@.len() == old(dst)@.len(),
        holds(final(dst)@, cols as int, j0 as int, b.columns(), k as int, j0 as int, j0 + cols),
        forall|x: int|
            k * cols <= x < old(dst)@.len() ==> #[trigger] final(dst)@[x] == old(dst)@[x],
{
    let ghost dst0 = dst@;
    let ghost want = b.columns();
    let ghost len = dst@.len();
    let width: usize = b.cols();
    let mut p: usize = 0;
    while p < k
        invariant
            p <= k,
            width == b.width(),
            b.wf(),
            k <= b.height(),
            j0 + cols <= b.width(),
            want == b.columns(),
            dst@.len() == len,
            k * cols <= dst.len(),
            dst0.len() == len,
            forall|x: int| k * cols <= x < len ==> #[trigger] dst@[x] == dst0[x],
            holds(dst@, cols as int, j0 as int, want, p as int, j0 as int, j0 + cols),
        decreases k - p,
    {
        let mut j: usize = 0;
        while j < cols
            invariant
                p < k,
                j <= cols,
                width == b.width(),
                b.wf(),
                k <= b.height(),
                j0 + cols <= b.width(),
                want == b.columns(),
                dst@.len() == len,
                k * cols <= dst.len(),
                dst0.len() == len,
                forall|x: int| k * cols <= x < len ==> #[trigger] dst@[x] == dst0[x],
                holds(dst@, cols as int, j0 as int, want, p as int, j0 as int, j0 + cols),
                forall|jj: int|
                    j0 <= jj < j0 + j ==> #[trigger] held(
                        dst@,
                        cols as int,
                        j0 as int,
                        want,
                        p as int,
                        jj,
                    ),
            decreases cols - j,
        {
            proof {
                lemma_row_fits(p as int, k as int, cols as int);
            }
            let ghost before = dst@;
            dst[p * cols + j] = b.get(p, j0 + j);
            proof {
                assert(want[j0 + j][p as int] == b.entry(p as int, j0 + j));
                assert forall|p2: int, jj: int|
                    0 <= p2 < p && j0 <= jj < j0 + cols implies #[trigger] held(
                    dst@,
                    cols as int,
                    j0 as int,
                    want,
                    p2,
                    jj,
                ) by {
                    assert(held(before, cols as int, j0 as int, want, p2, jj));
                    if p2 * cols + (jj - j0) == p * cols + j {
                        crate::math::lemma_position_unique(
                            cols as int,
                            p2,
                            jj - j0,
                            p as int,
                            j as int,
                        );
                    }
                }
                assert forall|jj: int| j0 <= jj < j0 + j + 1 implies #[trigger] held(
                    dst@,
                    cols as int,
                    j0 as int,
                    want,
                    p as int,
                    jj,
                ) by {
                    if jj < j0 + j {
                        assert(held(before, cols as int, j0 as int, want, p as int, jj));
                    }
                }
            }
            j = j + 1;
        }
        p = p + 1;
    }
}

/// Packs `strips` strips of `b` from column `jb`, whatever the layout of `b`; what lies
/// behind them is left alone.
fn pack_panel<T: PackedKernel>(
    k: usize,
    n: usize,
    jb: usize,
    strips: usize,
    b: &MatRef<'_, T>,
    dst: &mut [T],
)
    requires
        b.wf(),
        k == b.height(),
        n == b.width(),
        jb + strips * T::STRIP <= n,
        k * (strips * T::STRIP) <= old(dst)@.len(),
    ensures
        final(dst)@.len() == old(dst)@.len(),
        is_packed(
            final(dst)@,
            b.columns(),
            k as int,
            T::STRIP as int,
            jb as int,
            strips as int,
        ),
        forall|x: int|
            k * (strips * T::STRIP) <= x < old(dst)@.len() ==> #[trigger] final(dst)@[x] == old(
                dst,
            )@[x],
{
    match b.as_row_major_contiguous() {
        Some(flat) => {
            proof {
                assert(columns(flat@, k as int, n as int) =~= b.columns()) by {
                    assert forall|j: int| 0 <= j < n implies columns(
                        flat@,
                        k as int,
                        n as int,
                    )[j] == b.columns()[j] by {
                        assert(columns(flat@, k as int, n as int)[j] =~= b.columns()[j]);
                    }
                }
            }
            pack_b(k, n, jb, strips, flat, dst);
        },
        None => {
            proof {
                T::layout();
                vstd::arithmetic::div_mod::lemma_mod_multiples_basic(
                    strips as int,
                    T::STRIP as int,
                );
                vstd::arithmetic::div_mod::lemma_div_by_multiple(strips as int, T::STRIP as int);
                assert(0 <= strips * T::STRIP) by (nonlinear_arith)
                    requires
                        0 <= strips,
                        0 < T::STRIP,
                ;
            }
            pack_panel_gathered(jb, strips * T::STRIP, T::STRIP, b, dst);
        },
    }
}

/// Packs columns `[jb, jb + nc)` of a matrix of any layout in strips of `strip` columns; what
/// lies behind them is left alone.
fn pack_panel_gathered<T: Copy>(
    jb: usize,
    nc: usize,
    strip: usize,
    b: &MatRef<'_, T>,
    dst: &mut [T],
)
    requires
        b.wf(),
        0 < strip,
        nc % strip == 0,
        jb + nc <= b.width(),
        b.height() * nc <= old(dst)@.len(),
    ensures
        final(dst)@.len() == old(dst)@.len(),
        is_packed(
            final(dst)@,
            b.columns(),
            b.height(),
            strip as int,
            jb as int,
            nc as int / strip as int,
        ),
        forall|x: int|
            b.height() * nc <= x < old(dst)@.len() ==> #[trigger] final(dst)@[x] == old(dst)@[x],
{
    let k: usize = b.rows();
    let width: usize = b.cols();
    let strips: usize = nc / strip;
    let ghost cols = b.columns();
    let ghost dst0 = dst@;
    let ghost len = dst@.len();
    let ghost (kk, ww, ss) = (k as int, strip as int, strips as int);
    proof {
        vstd::arithmetic::div_mod::lemma_fundamental_div_mod(nc as int, ww);
        assert(strips * strip == nc) by (nonlinear_arith)
            requires
                nc == strip * strips,
        ;
    }
    let mut p: usize = 0;
    while p < k
        invariant
            p <= k,
            0 < strip,
            kk == k,
            ww == strip,
            ss == strips,
            b.wf(),
            k == b.height(),
            width == b.width(),
            cols == b.columns(),
            strips * strip == nc,
            jb + nc <= width,
            dst@.len() == len,
            dst0.len() == len,
            k * nc <= dst.len(),
            forall|x: int| k * nc <= x < len ==> #[trigger] dst@[x] == dst0[x],
            forall|q2: int, p2: int, r2: int|
                0 <= q2 < ss && 0 <= p2 < p && 0 <= r2 < ww ==> #[trigger] packed_at(
                    dst@,
                    cols,
                    kk,
                    ww,
                    jb as int,
                    q2,
                    p2,
                    r2,
                ),
        decreases k - p,
    {
        let mut q: usize = 0;
        while q < strips
            invariant
                p < k,
                q <= strips,
                0 < strip,
                kk == k,
                ww == strip,
                ss == strips,
                b.wf(),
                k == b.height(),
                width == b.width(),
                cols == b.columns(),
                strips * strip == nc,
                jb + nc <= width,
                dst@.len() == len,
                dst0.len() == len,
                k * nc <= dst.len(),
                forall|x: int| k * nc <= x < len ==> #[trigger] dst@[x] == dst0[x],
                forall|q2: int, p2: int, r2: int|
                    0 <= q2 < ss && 0 <= p2 && 0 <= r2 < ww && (p2 < p || (p2 == p && q2
                        < q)) ==> #[trigger] packed_at(
                        dst@,
                        cols,
                        kk,
                        ww,
                        jb as int,
                        q2,
                        p2,
                        r2,
                    ),
            decreases strips - q,
        {
            proof {
                lemma_slot(kk, ww, ss, q as int, p as int, 0);
                lemma_row_fits(q as int, ss, ww);
            }
            let d: usize = (q * k + p) * strip;
            let j: usize = jb + q * strip;
            let mut r: usize = 0;
            while r < strip
                invariant
                    p < k,
                    q < strips,
                    r <= strip,
                    kk == k,
                    ww == strip,
                    ss == strips,
                    b.wf(),
                    k == b.height(),
                    width == b.width(),
                    cols == b.columns(),
                    strips * strip == nc,
                    jb + nc <= width,
                    j == jb + q * strip,
                    q * strip + strip <= strips * strip,
                    0 <= q * strip,
                    d == slot(kk, ww, q as int, p as int, 0),
                    d + strip <= dst.len(),
                    dst@.len() == len,
                    dst0.len() == len,
                    k * nc <= dst.len(),
                    forall|x: int| k * nc <= x < len ==> #[trigger] dst@[x] == dst0[x],
                    forall|q2: int, p2: int, r2: int|
                        0 <= q2 < ss && 0 <= p2 && 0 <= r2 < ww && (p2 < p || (p2 == p && (q2 < q
                            || (q2 == q && r2 < r)))) ==> #[trigger] packed_at(
                            dst@,
                            cols,
                            kk,
                            ww,
                            jb as int,
                            q2,
                            p2,
                            r2,
                        ),
                decreases strip - r,
            {
                let ghost before = dst@;
                dst[d + r] = b.get(p, j + r);
                proof {
                    lemma_slot(kk, ww, ss, q as int, p as int, r as int);
                    assert(cols[j + r][p as int] == b.entry(p as int, j + r));
                    assert forall|q2: int, p2: int, r2: int|
                        0 <= q2 < ss && 0 <= p2 && 0 <= r2 < ww && (p2 < p || (p2 == p && (q2 < q
                            || (q2 == q && r2 < r + 1)))) implies #[trigger] packed_at(
                        dst@,
                        cols,
                        kk,
                        ww,
                        jb as int,
                        q2,
                        p2,
                        r2,
                    ) by {
                        lemma_slot(kk, ww, ss, q2, p2, r2);
                        if slot(kk, ww, q2, p2, r2) == d + r {
                            lemma_slot_unique(
                                kk,
                                ww,
                                q2,
                                p2,
                                r2,
                                q as int,
                                p as int,
                                r as int,
                            );
                        } else {
                            assert(packed_at(before, cols, kk, ww, jb as int, q2, p2, r2));
                        }
                    }
                }
                r = r + 1;
            }
            q = q + 1;
        }
        p = p + 1;
    }
}

/// Law: a valid plan has at least one row, so that the length of `a` tells its rows.
pub proof fn law_plan_has_rows<T: PackedKernel>(plan: MatmulPlan<T>)
    requires
        plan.wf(),
    ensures
        plan.depth() > 0,
        plan.width() >= 0,
        plan.source().len() == plan.width(),
{
}

/// Law: the layout of `B` does not show. Plans of two matrices with the same elements give
/// the same bits for every `a`.
pub proof fn law_layout_does_not_show<'a, T: PackedKernel>(
    b1: MatRef<'a, T>,
    b2: MatRef<'a, T>,
    plan1: MatmulPlan<T>,
    plan2: MatmulPlan<T>,
    a: Seq<T>,
    c1: Seq<T>,
    c2: Seq<T>,
)
    requires
        b1.height() == b2.height(),
        b1.width() == b2.width(),
        forall|p: int, j: int|
            0 <= p < b1.height() && 0 <= j < b1.width() ==> #[trigger] b1.entry(p, j) == b2.entry(
                p,
                j,
            ),
        plan1.wf() && plan1.depth() == b1.height() && plan1.width() == b1.width(),
        plan2.wf() && plan2.depth() == b2.height() && plan2.width() == b2.width(),
        plan1.source() == b1.columns(),
        plan2.source() == b2.columns(),
        plan1.gives(a, c1),
        plan2.gives(a, c2),
    ensures
        b1.columns() == b2.columns(),
        c1 == c2,
{
    assert forall|j: int| 0 <= j < b1.width() implies b1.columns()[j] == b2.columns()[j] by {
        assert(b1.columns()[j] =~= b2.columns()[j]);
    }
    assert(b1.columns() =~= b2.columns());
    law_plan_determines(plan1, a, c1, c2);
}

/// Law: a plan determines its product. Whatever two outputs held before, two runs on the
/// same `a` leave the same bits in them; running again changes nothing.
pub proof fn law_plan_determines<T: PackedKernel>(
    plan: MatmulPlan<T>,
    a: Seq<T>,
    c1: Seq<T>,
    c2: Seq<T>,
)
    requires
        plan.wf(),
        plan.gives(a, c1),
        plan.gives(a, c2),
    ensures
        c1 == c2,
{
    vstd::arithmetic::div_mod::lemma_div_pos_is_pos(a.len() as int, plan.depth());
    law_paths_agree(
        a,
        plan.source(),
        a.len() as int / plan.depth(),
        plan.depth(),
        plan.width(),
        c1,
        c2,
    );
}

/// Law: a plan of the row-major matrix `b` gives the bits that a single product with `b`
/// gives.
pub proof fn law_plan_is_product<T: PackedKernel>(
    plan: MatmulPlan<T>,
    a: Seq<T>,
    b: Seq<T>,
    m: int,
    k: int,
    n: int,
    c1: Seq<T>,
    c2: Seq<T>,
)
    requires
        0 <= m,
        plan.wf(),
        plan.depth() == k,
        plan.width() == n,
        plan.source() == columns(b, k, n),
        a.len() == m * k,
        plan.gives(a, c1),
        is_product(a, b, m, k, n, c2),
    ensures
        c1 == c2,
{
    vstd::arithmetic::div_mod::lemma_div_by_multiple(m, k);
    law_paths_agree(a, plan.source(), m, k, n, c1, c2);
}

/// Law: a plan may be run on the rows of `a` in two parts. What the two runs leave in the
/// two parts of `c` is what one run leaves in `c`.
pub proof fn law_plan_by_rows<T: PackedKernel>(
    plan: MatmulPlan<T>,
    a: Seq<T>,
    m: int,
    r: int,
    c: Seq<T>,
    whole: Seq<T>,
)
    requires
        plan.wf(),
        0 <= r <= m,
        a.len() == m * plan.depth(),
        c.len() == m * plan.width(),
        plan.gives(a.subrange(0, r * plan.depth()), c.subrange(0, r * plan.width())),
        plan.gives(
            a.subrange(r * plan.depth(), m * plan.depth()),
            c.subrange(r * plan.width(), m * plan.width()),
        ),
        plan.gives(a, whole),
    ensures
        plan.gives(a, c),
        c == whole,
{
    let (k, n) = (plan.depth(), plan.width());
    assert(0 <= r * k <= m * k && m * k - r * k == (m - r) * k) by (nonlinear_arith)
        requires
            0 <= r <= m,
            0 < k,
    ;
    assert(0 <= r * n <= m * n) by (nonlinear_arith)
        requires
            0 <= r <= m,
            0 <= n,
    ;
    vstd::arithmetic::div_mod::lemma_div_by_multiple(r, k);
    vstd::arithmetic::div_mod::lemma_div_by_multiple(m - r, k);
    vstd::arithmetic::div_mod::lemma_div_by_multiple(m, k);
    law_row_blocks_join(a, plan.source(), m, k, n, c, r);
    law_plan_determines(plan, a, c, whole);
}

} // verus!
