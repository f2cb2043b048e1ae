//! Buffers whose first element lies on a cache-line boundary.
use crate::math::{max_nat, max_usize, min_nat, min_usize};
use vstd::layout::{align_of, layout_for_type_is_valid, size_of};
use vstd::prelude::*;

verus! {

/// Alignment, in bytes, of the first element of an [`AlignedVec`].
pub const ALIGN: usize = 64;

/// Number of elements to skip from address `addr` so that the next element lies on an
/// [`ALIGN`] boundary; `esz` is the element size in bytes.
pub open spec fn skip(addr: int, esz: int) -> int {
    if addr % 64 == 0 {
        0
    } else {
        (64 - addr % 64 + esz - 1) / esz
    }
}

/// However an element size falls, a cache line's worth of elements and one more suffice.
proof fn lemma_skip_bound(addr: int, esz: int)
    requires
        addr >= 0,
        esz > 0,
    ensures
        0 <= skip(addr, esz) <= 64int / esz + 1,
{
    let m = addr % 64;
    if m != 0 {
        let gap = 64 - m;
        let q = 64int / esz;
        assert(q >= 0 && 64 < (q + 1) * esz) by (nonlinear_arith)
            requires
                q == 64int / esz,
                esz > 0,
        ;
        assert(0 <= (gap + esz - 1) / esz <= q + 1) by (nonlinear_arith)
            requires
                64 < (q + 1) * esz,
                0 < gap < 64,
                esz > 0,
                q >= 0,
        ;
    }
}

/// Law: an element size that divides [`ALIGN`], at an address that is a multiple of the
/// element size, always leaves a window that starts on the boundary.
pub proof fn law_skip_aligns(addr: int, esz: int)
    requires
        addr >= 0,
        esz > 0,
        64int % esz == 0,
        addr % esz == 0,
    ensures
        (addr + skip(addr, esz) * esz) % 64 == 0,
        0 <= skip(addr, esz) * esz < 64,
        0 <= skip(addr, esz) < 64,
        esz <= 64,
{
    if esz > 64 {
        vstd::arithmetic::div_mod::lemma_small_mod(64, esz as nat);
    }
    let m = addr % 64;
    if m != 0 {
        let gap = 64 - m;
        let q = 64int / esz;
        let a = addr / 64;
        let t = addr / esz;
        assert(64 == q * esz) by (nonlinear_arith)
            requires
                64int % esz == 0,
                esz > 0,
                q == 64int / esz,
        ;
        assert(addr == t * esz) by (nonlinear_arith)
            requires
                addr % esz == 0,
                esz > 0,
                t == addr / esz,
        ;
        assert(addr == a * 64 + m);
        let u = (a + 1) * q - t;
        assert(gap == u * esz) by (nonlinear_arith)
            requires
                gap == 64 - m,
                addr == a * 64 + m,
                addr == t * esz,
                64 == q * esz,
                u == (a + 1) * q - t,
        ;
        assert(skip(addr, esz) == u) by (nonlinear_arith)
            requires
                skip(addr, esz) == (gap + esz - 1) / esz,
                gap == u * esz,
                esz > 0,
        ;
        assert(u < 64 && u >= 0) by (nonlinear_arith)
            requires
                gap == u * esz,
                0 <= gap < 64,
                esz > 0,
        ;
    }
}

/// Number of elements to skip from address `addr` to reach an [`ALIGN`] boundary.
pub fn window_offset(addr: usize, esz: usize) -> (r: usize)
    requires
        0 < esz,
    ensures
        r == skip(addr as int, esz as int),
{
    let misalign: usize = addr % ALIGN;
    if misalign == 0 {
        return 0;
    }
    let gap: usize = ALIGN - misalign;
    if gap <= esz {
        proof {
            assert((gap + esz - 1) as int / esz as int == 1) by (nonlinear_arith)
                requires
                    0 < gap <= esz,
            ;
        }
        1
    } else {
        (gap + esz - 1) / esz
    }
}

/// Whether a buffer of `len` elements of this type can be brought to the boundary from
/// wherever its allocation begins: it begins there already, or steps of one element lead
/// there and there is room for them. Elements that take up memory always leave that room:
/// no allocation holds as many of them as a word can count.
pub open spec fn alignable<T>(len: int) -> bool {
    ||| align_of::<T>() % 64 == 0
    ||| {
        &&& size_of::<T>() > 0
        &&& align_of::<T>() == size_of::<T>()
        &&& 64nat % size_of::<T>() == 0
        &&& len + 65 <= usize::MAX
    }
}

/// Elements to allocate for `len` elements of `size` bytes, padding included.
pub open spec fn padded_len(len: int, size: int) -> int {
    min_nat(len + 64int / max_nat(size, 1) + 1, usize::MAX as int)
}

/// Address of the first element of a vector's allocation.
///
/// Calls `Vec::as_ptr`. The address is the machine's choice; all that is claimed of it
/// is that it is a multiple of the element type's alignment. That the elements stay at
/// that address for as long as the vector does not grow is left unsaid.
#[verifier::external_body]
fn address_of<T>(buf: &Vec<T>) -> (r: usize)
    ensures
        r as nat % align_of::<T>() == 0,
{
    buf.as_ptr() as usize
}

/// A buffer of `len` elements whose first element lies on an [`ALIGN`] boundary.
///
/// The elements live inside a slightly larger allocation: `off` elements of it are
/// skipped. `first` is the address of the first element that is not, computed from the
/// address that the allocation had when the buffer was made. What is proved is the
/// arithmetic from that address on; that the elements stay there, and that two buffers lie
/// apart, is not.
pub struct AlignedVec<T> {
    buf: Vec<T>,
    off: usize,
    len: usize,
    first: usize,
}

impl<T> View for AlignedVec<T> {
    type V = Seq<T>;

    closed spec fn view(&self) -> Seq<T> {
        self.buf@.subrange(self.off as int, self.off + self.len)
    }
}

impl<T> AlignedVec<T> {
    /// The window lies inside the allocation, and starts on the boundary.
    pub closed spec fn wf(&self) -> bool {
        &&& self.off + self.len <= self.buf@.len()
        &&& alignable::<T>(self.len as int) ==> self.first % 64 == 0
    }

    /// Number of elements of the allocation that are skipped.
    pub closed spec fn offset(&self) -> int {
        self.off as int
    }

    /// Address of the first element, as it was computed when the buffer was made; a number,
    /// whose tie to the memory behind the elements is not proved.
    pub closed spec fn address(&self) -> usize {
        self.first
    }

    /// The part of the window that lies inside the allocation.
    fn window(&self) -> (r: &[T])
        ensures
            self.wf() ==> r@ == self@,
    {
        let start: usize = min_usize(self.off, self.buf.len());
        let (_, rest) = self.buf.as_slice().split_at(start);
        let (window, _) = rest.split_at(min_usize(self.len, rest.len()));
        proof {
            if self.wf() {
                assert(window@ =~= self@);
            }
        }
        window
    }

    /// Number of elements.
    pub fn len(&self) -> (r: usize)
        requires
            self.wf(),
        ensures
            r == self@.len(),
    {
        self.len
    }

    /// Whether there are no elements.
    pub fn is_empty(&self) -> (r: bool)
        requires
            self.wf(),
        ensures
            r == (self@.len() == 0),
    {
        self.len == 0
    }

    /// The elements.
    pub fn as_slice(&self) -> (r: &[T])
        requires
            self.wf(),
        ensures
            r@ == self@,
    {
        self.window()
    }

    /// The elements, to be written.
    pub fn as_mut_slice(&mut self) -> (r: &mut [T])
        requires
            old(self).wf(),
        ensures
            r@ == old(self)@,
            final(r)@.len() == r@.len() ==> final(self).wf() && final(self)@ == final(r)@,
            final(self).address() == old(self).address(),
    {
        let off: usize = self.off;
        let len: usize = self.len;
        let (_, rest) = self.buf.as_mut_slice().split_at_mut(off);
        let (window, _) = rest.split_at_mut(len);
        window
    }

    /// Address of the first element, as computed when the buffer was made; on an [`ALIGN`]
    /// boundary.
    pub fn as_ptr(&self) -> (r: usize)
        requires
            self.wf(),
        ensures
            r == self.address(),
            alignable::<T>(self@.len() as int) ==> r % ALIGN == 0,
    {
        self.first
    }

    /// Address of the first element, for a caller that writes through it.
    pub fn as_mut_ptr(&mut self) -> (r: usize)
        requires
            old(self).wf(),
        ensures
            *final(self) == *old(self),
            r == old(self).address(),
            alignable::<T>(old(self)@.len() as int) ==> r % ALIGN == 0,
    {
        self.first
    }
}

impl<T> AlignedVec<T> {
    /// The window of `len` elements of an allocation that begins at address `addr`: it starts
    /// at the first boundary, if the allocation reaches that far, and else at once. `size` is
    /// the size of an element; elements without a size are stepped over like bytes.
    fn placed(buf: Vec<T>, addr: usize, size: usize, len: usize) -> (r: Self)
        requires
            len <= buf@.len(),
        ensures
            r.offset() == (if skip(addr as int, max_nat(size as int, 1)) + len <= buf@.len() {
                skip(addr as int, max_nat(size as int, 1))
            } else {
                0
            }),
            r.address() == addr.wrapping_add((r.offset() as usize).wrapping_mul(size)),
            r@ == buf@.subrange(r.offset(), r.offset() + len),
            r@.len() == len,
            addr as nat % align_of::<T>() == 0 && size == size_of::<T>() && buf@.len()
                == padded_len(len as int, size as int) ==> r.wf(),
    {
        layout_for_type_is_valid::<T>();
        let esz: usize = max_usize(size, 1);
        let wanted: usize = window_offset(addr, esz);
        let off: usize = if wanted <= buf.len() - len {
            wanted
        } else {
            0
        };
        let first: usize = addr.wrapping_add(off.wrapping_mul(size));
        proof {
            lemma_skip_bound(addr as int, esz as int);
            if align_of::<T>() % 64 == 0 && addr as nat % align_of::<T>() == 0 {
                lemma_on_boundary(addr as int, align_of::<T>() as int);
            }
            if alignable::<T>(len as int) && addr as nat % align_of::<T>() == 0 && size == size_of::<T>()
                && wanted <= buf@.len() - len {
                lemma_first_aligned::<T>(len as int, addr, size, off, first);
            }
        }
        AlignedVec { buf, off, len, first }
    }
}

/// A multiple of a multiple of 64 is one itself.
proof fn lemma_on_boundary(addr: int, align: int)
    requires
        align > 0,
        align % 64 == 0,
        addr % align == 0,
    ensures
        addr % 64 == 0,
{
    vstd::arithmetic::div_mod::lemma_fundamental_div_mod(addr, align);
    vstd::arithmetic::div_mod::lemma_fundamental_div_mod(align, 64);
    let (p, q) = (addr / align, align / 64);
    assert(addr == 64 * (q * p)) by (nonlinear_arith)
        requires
            addr == align * p,
            align == 64 * q,
    ;
    vstd::arithmetic::div_mod::lemma_mod_multiples_basic(q * p, 64);
}

/// Skipping brings the first element of a type that can be aligned to the boundary.
proof fn lemma_first_aligned<T>(len: int, addr: usize, size: usize, off: usize, first: usize)
    requires
        alignable::<T>(len),
        align_of::<T>() > 0,
        addr as nat % align_of::<T>() == 0,
        size == size_of::<T>(),
        off == skip(addr as int, max_nat(size as int, 1)),
        first == addr.wrapping_add(off.wrapping_mul(size)),
    ensures
        first % 64 == 0,
{
    let align = align_of::<T>() as int;
    if align % 64 == 0 {
        lemma_on_boundary(addr as int, align);
        let step = off * size;
        assert(step == 0) by (nonlinear_arith)
            requires
                off == 0,
                step == off * size,
        ;
        vstd::arithmetic::div_mod::lemma_small_mod(0, (usize::MAX + 1) as nat);
        assert(off.wrapping_mul(size) == step);
        assert(first == addr);
    } else {
        law_skip_aligns(addr as int, size as int);
        assert((usize::MAX + 1) % 64 == 0);
        let step = off * size;
        assert(0 <= step < 64);
        vstd::arithmetic::div_mod::lemma_small_mod(step as nat, (usize::MAX + 1) as nat);
        assert(off.wrapping_mul(size) == step);
    }
}

impl<T: Copy + Default> AlignedVec<T> {
    /// Allocates room for `len` elements and the padding in front of them.
    fn filled(len: usize, fill: T) -> (r: Self)
        ensures
            r.wf(),
            r@ == Seq::new(len as nat, |i: int| fill),
    {
        let size: usize = core::mem::size_of::<T>();
        let extra: usize = ALIGN / max_usize(size, 1) + 1;
        let total: usize = len.saturating_add(extra);
        let mut buf: Vec<T> = Vec::with_capacity(total);
        while buf.len() < total
            invariant
                buf@.len() <= total,
                forall|i: int| 0 <= i < buf@.len() ==> buf@[i] == fill,
            decreases total - buf.len(),
        {
            buf.push(fill);
        }
        let addr: usize = address_of(&buf);
        let r = AlignedVec::placed(buf, addr, size, len);
        proof {
            lemma_skip_bound(addr as int, max_nat(size as int, 1));
            assert(r@ =~= Seq::new(len as nat, |i: int| fill));
        }
        r
    }

    /// A buffer of `len` default values.
    pub fn new(len: usize) -> (r: Self)
        ensures
            r.wf(),
            r@.len() == len,
            alignable::<T>(len as int) ==> r.address() % ALIGN == 0,
            forall|i: int| 0 <= i < len ==> call_ensures(T::default, (), #[trigger] r@[i]),
    {
        let r = AlignedVec::filled(len, T::default());
        proof {
            assert(r@.len() == r.len);
        }
        r
    }

    /// A buffer of `len` elements, element `i` of which is `f(i)`.
    pub fn fill_with(len: usize, f: impl Fn(usize) -> T) -> (r: Self)
        requires
            forall|i: usize| i < len ==> call_requires(f, (i,)),
        ensures
            r.wf(),
            r@.len() == len,
            alignable::<T>(len as int) ==> r.address() % ALIGN == 0,
            forall|i: usize| i < len ==> call_ensures(f, (i,), #[trigger] r@[i as int]),
    {
        let mut v = AlignedVec::new(len);
        let slots: &mut [T] = v.as_mut_slice();
        let mut i: usize = 0;
        while i < len
            invariant
                i <= len,
                slots@.len() == len,
                forall|j: usize| j < len ==> call_requires(f, (j,)),
                forall|j: usize| j < i ==> call_ensures(f, (j,), #[trigger] slots@[j as int]),
            decreases len - i,
        {
            slots[i] = f(i);
            i = i + 1;
        }
        v
    }
}

/// Law: the first element of a valid buffer lies on the boundary, whatever was done to its
/// elements.
pub proof fn law_first_on_boundary<T>(v: AlignedVec<T>)
    requires
        v.wf(),
        alignable::<T>(v@.len() as int),
    ensures
        v.address() % ALIGN == 0,
{
    assert(v@.len() == v.len);
}

impl<T> core::ops::Deref for AlignedVec<T> {
    type Target = [T];

    fn deref(&self) -> (r: &[T])
        ensures
            self.wf() ==> r@ == self@,
    {
        self.window()
    }
}

impl<T: Copy + Default> Clone for AlignedVec<T> {
    /// Copies the elements into a fresh allocation, whose offset is computed anew.
    fn clone(&self) -> (r: Self)
        ensures
            self.wf() ==> r.wf() && r@ == self@,
            self.wf() && alignable::<T>(self@.len() as int) ==> r.address() % ALIGN == 0,
    {
        let src = self.window();
        let mut v = AlignedVec::filled(src.len(), T::default());
        let mut i: usize = 0;
        while i < src.len()
            invariant
                i <= src@.len(),
                v.wf(),
                v@.len() == src@.len(),
                forall|j: int| 0 <= j < i ==> #[trigger] v@[j] == src@[j],
            decreases src@.len() - i,
        {
            let ghost before = v@;
            proof {
                assert(v.buf.len() == v.buf@.len());
            }
            let at: usize = v.off + i;
            v.buf[at] = src[i];
            proof {
                assert(v@ =~= before.update(i as int, src@[i as int]));
            }
            i = i + 1;
        }
        proof {
            if self.wf() {
                assert(v@ =~= self@);
            }
        }
        v
    }
}

} // verus!
