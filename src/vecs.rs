use vstd::prelude::*;

verus! {

/// A fixed-width vector register of scalars.
///
/// `lanes` is the register's contents, lane 0 first; it always holds exactly
/// `spec_width()` scalars.
pub trait Packed: Sized + Copy {
    type Scalar: Copy;

    spec fn lanes(&self) -> Seq<Self::Scalar>;

    spec fn spec_width() -> nat;

    proof fn lemma_shape(v: Self)
        ensures
            v.lanes().len() == Self::spec_width(),
    ;

    proof fn lemma_width()
        ensures
            0 < Self::spec_width() <= 64,
    ;

    /// The number of lanes of this vector type.
    fn width() -> (w: usize)
        ensures
            w == Self::spec_width(),
    ;

    /// Loads `width()` scalars of `data`, starting at `offset`.
    fn load(data: &[Self::Scalar], offset: usize) -> (r: Self)
        requires
            offset + Self::spec_width() <= data@.len(),
        ensures
            r.lanes() == data@.subrange(offset as int, offset + Self::spec_width()),
    ;

    /// Stores the lanes into `data`, starting at `offset`.
    fn store(&self, data: &mut [Self::Scalar], offset: usize)
        requires
            offset + Self::spec_width() <= old(data)@.len(),
        ensures
            final(data)@ == splice(old(data)@, offset as int, self.lanes()),
    ;

    /// A vector whose every lane holds `s`.
    fn splat(s: Self::Scalar) -> (r: Self)
        ensures
            r.lanes() == Seq::new(Self::spec_width(), |i: int| s),
    ;

    /// This vector with lane `i` set to `s`.
    fn replace(&self, i: usize, s: Self::Scalar) -> (r: Self)
        requires
            i < Self::spec_width(),
        ensures
            r.lanes() == self.lanes().update(i as int, s),
    ;

    /// Lane `i` of this vector.
    fn extract(&self, i: usize) -> (r: Self::Scalar)
        requires
            i < Self::spec_width(),
        ensures
            r == self.lanes()[i as int],
    ;

    /// Lanes `0..n` of `self` followed by lanes `n..width()` of `other`.
    fn merge_partitioned(&self, other: Self, n: usize) -> (r: Self)
        requires
            n <= Self::spec_width(),
        ensures
            r.lanes() == merged(self.lanes(), other.lanes(), n as int),
    ;

    /// The scalar in lane 0.
    fn coalesce(&self) -> (r: Self::Scalar)
        ensures
            r == self.lanes()[0],
    ;
}

/// A scalar that can be packed into a vector register.
pub trait Packable: Copy {
    type Vector: Packed<Scalar = Self>;

    spec fn spec_size() -> nat;

    /// The scalar as an integer.
    spec fn as_int(self) -> int;

    /// The largest value of the scalar type, as an integer.
    spec fn spec_max() -> int;

    /// A scalar spans between one and eight bytes, and a vector of it
    /// `VECTOR_BYTES` bytes.
    proof fn lemma_size()
        ensures
            0 < Self::spec_size() <= 8,
            Self::spec_size() * <Self::Vector as Packed>::spec_width() == VECTOR_BYTES,
    ;

    /// The size of one scalar in bytes.
    fn size() -> (s: usize)
        ensures
            s == Self::spec_size(),
    ;

    /// The scalar zero, the identity of addition.
    fn zero() -> Self;
}

/// The number of bytes in one vector register.
pub const VECTOR_BYTES: usize = 16;

/// `s` with the `w.len()` scalars at `offset` replaced by `w`.
pub open spec fn splice<T>(s: Seq<T>, offset: int, w: Seq<T>) -> Seq<T> {
    s.subrange(0, offset) + w + s.subrange(offset + w.len(), s.len() as int)
}

/// The first `n` lanes of `a` followed by the rest of `b`.
pub open spec fn merged<T>(a: Seq<T>, b: Seq<T>, n: int) -> Seq<T> {
    Seq::new(b.len(), |i: int| if i < n { a[i] } else { b[i] })
}

/// A vector register of `N` scalars of type `T`.
#[derive(Clone, Copy)]
pub struct Simd<T, const N: usize> {
    pub lanes: [T; N],
}

fn load_lanes<T: Copy, const N: usize>(data: &[T], offset: usize) -> (r: [T; N])
    requires
        0 < N,
        offset + N <= data@.len(),
    ensures
        r@ == data@.subrange(offset as int, offset + N),
{
    let len = data.len();
    let mut r: [T; N] = [data[offset]; N];
    let mut i: usize = 0;
    while i < N
        invariant
            0 < N,
            offset + N <= data@.len(),
            len == data@.len(),
            i <= N,
            r@.len() == N,
            forall|j: int| 0 <= j < i ==> r@[j] == data@[offset + j],
        decreases N - i,
    {
        r[i] = data[offset + i];
        i = i + 1;
    }
    assert(r@ =~= data@.subrange(offset as int, offset + N));
    r
}

fn store_lanes<T: Copy, const N: usize>(lanes: &[T; N], data: &mut [T], offset: usize)
    requires
        offset + N <= old(data)@.len(),
    ensures
        final(data)@ == splice(old(data)@, offset as int, lanes@),
{
    let len = data.len();
    let mut i: usize = 0;
    while i < N
        invariant
            offset + N <= old(data)@.len(),
            len == old(data)@.len(),
            i <= N,
            data@.len() == old(data)@.len(),
            forall|j: int| 0 <= j < offset ==> data@[j] == old(data)@[j],
            forall|j: int| offset + N <= j < data@.len() ==> data@[j] == old(data)@[j],
            forall|j: int| offset <= j < offset + i ==> data@[j] == lanes@[j - offset],
            forall|j: int| offset + i <= j < offset + N ==> data@[j] == old(data)@[j],
        decreases N - i,
    {
        data[offset + i] = lanes[i];
        i = i + 1;
    }
    assert(data@ =~= splice(old(data)@, offset as int, lanes@));
}

fn merge_lanes<T: Copy, const N: usize>(a: &[T; N], b: &[T; N], n: usize) -> (r: [T; N])
    ensures
        r@ == merged(a@, b@, n as int),
{
    let mut r: [T; N] = *b;
    let mut i: usize = 0;
    while i < n && i < N
        invariant
            r@.len() == N,
            a@.len() == N,
            b@.len() == N,
            i <= N,
            i <= n,
            forall|j: int| 0 <= j < i ==> r@[j] == a@[j],
            forall|j: int| i <= j < N ==> r@[j] == b@[j],
        decreases N - i,
    {
        r[i] = a[i];
        i = i + 1;
    }
    assert(r@ =~= merged(a@, b@, n as int));
    r
}


impl Packed for Simd<u8, 16> {
    type Scalar = u8;

    open spec fn lanes(&self) -> Seq<u8> {
        self.lanes@
    }

    open spec fn spec_width() -> nat {
        16
    }

    proof fn lemma_shape(v: Self) {
    }

    proof fn lemma_width() {
    }

    fn width() -> (w: usize) {
        16
    }

    fn load(data: &[u8], offset: usize) -> (r: Self) {
        Simd { lanes: load_lanes(data, offset) }
    }

    fn store(&self, data: &mut [u8], offset: usize) {
        store_lanes(&self.lanes, data, offset)
    }

    fn splat(s: u8) -> (r: Self) {
        let r = Simd { lanes: [s; 16] };
        assert(r.lanes@ =~= Seq::new(16, |i: int| s));
        r
    }

    fn replace(&self, i: usize, s: u8) -> (r: Self) {
        let mut lanes = self.lanes;
        lanes[i] = s;
        Simd { lanes }
    }

    fn extract(&self, i: usize) -> (r: u8) {
        self.lanes[i]
    }

    fn merge_partitioned(&self, other: Self, n: usize) -> (r: Self) {
        Simd { lanes: merge_lanes(&self.lanes, &other.lanes, n) }
    }

    fn coalesce(&self) -> (r: u8) {
        self.lanes[0]
    }
}

impl Packable for u8 {
    open spec fn as_int(self) -> int {
        self as int
    }

    open spec fn spec_max() -> int {
        u8::MAX as int
    }

    type Vector = Simd<u8, 16>;

    open spec fn spec_size() -> nat {
        1
    }

    proof fn lemma_size() {
    }

    fn size() -> (s: usize) {
        1
    }

    fn zero() -> Self {
        0
    }
}

impl Packed for Simd<i8, 16> {
    type Scalar = i8;

    open spec fn lanes(&self) -> Seq<i8> {
        self.lanes@
    }

    open spec fn spec_width() -> nat {
        16
    }

    proof fn lemma_shape(v: Self) {
    }

    proof fn lemma_width() {
    }

    fn width() -> (w: usize) {
        16
    }

    fn load(data: &[i8], offset: usize) -> (r: Self) {
        Simd { lanes: load_lanes(data, offset) }
    }

    fn store(&self, data: &mut [i8], offset: usize) {
        store_lanes(&self.lanes, data, offset)
    }

    fn splat(s: i8) -> (r: Self) {
        let r = Simd { lanes: [s; 16] };
        assert(r.lanes@ =~= Seq::new(16, |i: int| s));
        r
    }

    fn replace(&self, i: usize, s: i8) -> (r: Self) {
        let mut lanes = self.lanes;
        lanes[i] = s;
        Simd { lanes }
    }

    fn extract(&self, i: usize) -> (r: i8) {
        self.lanes[i]
    }

    fn merge_partitioned(&self, other: Self, n: usize) -> (r: Self) {
        Simd { lanes: merge_lanes(&self.lanes, &other.lanes, n) }
    }

    fn coalesce(&self) -> (r: i8) {
        self.lanes[0]
    }
}

impl Packable for i8 {
    open spec fn as_int(self) -> int {
        self as int
    }

    open spec fn spec_max() -> int {
        i8::MAX as int
    }

    type Vector = Simd<i8, 16>;

    open spec fn spec_size() -> nat {
        1
    }

    proof fn lemma_size() {
    }

    fn size() -> (s: usize) {
        1
    }

    fn zero() -> Self {
        0
    }
}

impl Packed for Simd<u16, 8> {
    type Scalar = u16;

    open spec fn lanes(&self) -> Seq<u16> {
        self.lanes@
    }

    open spec fn spec_width() -> nat {
        8
    }

    proof fn lemma_shape(v: Self) {
    }

    proof fn lemma_width() {
    }

    fn width() -> (w: usize) {
        8
    }

    fn load(data: &[u16], offset: usize) -> (r: Self) {
        Simd { lanes: load_lanes(data, offset) }
    }

    fn store(&self, data: &mut [u16], offset: usize) {
        store_lanes(&self.lanes, data, offset)
    }

    fn splat(s: u16) -> (r: Self) {
        let r = Simd { lanes: [s; 8] };
        assert(r.lanes@ =~= Seq::new(8, |i: int| s));
        r
    }

    fn replace(&self, i: usize, s: u16) -> (r: Self) {
        let mut lanes = self.lanes;
        lanes[i] = s;
        Simd { lanes }
    }

    fn extract(&self, i: usize) -> (r: u16) {
        self.lanes[i]
    }

    fn merge_partitioned(&self, other: Self, n: usize) -> (r: Self) {
        Simd { lanes: merge_lanes(&self.lanes, &other.lanes, n) }
    }

    fn coalesce(&self) -> (r: u16) {
        self.lanes[0]
    }
}

impl Packable for u16 {
    open spec fn as_int(self) -> int {
        self as int
    }

    open spec fn spec_max() -> int {
        u16::MAX as int
    }

    type Vector = Simd<u16, 8>;

    open spec fn spec_size() -> nat {
        2
    }

    proof fn lemma_size() {
    }

    fn size() -> (s: usize) {
        2
    }

    fn zero() -> Self {
        0
    }
}

impl Packed for Simd<i16, 8> {
    type Scalar = i16;

    open spec fn lanes(&self) -> Seq<i16> {
        self.lanes@
    }

    open spec fn spec_width() -> nat {
        8
    }

    proof fn lemma_shape(v: Self) {
    }

    proof fn lemma_width() {
    }

    fn width() -> (w: usize) {
        8
    }

    fn load(data: &[i16], offset: usize) -> (r: Self) {
        Simd { lanes: load_lanes(data, offset) }
    }

    fn store(&self, data: &mut [i16], offset: usize) {
        store_lanes(&self.lanes, data, offset)
    }

    fn splat(s: i16) -> (r: Self) {
        let r = Simd { lanes: [s; 8] };
        assert(r.lanes@ =~= Seq::new(8, |i: int| s));
        r
    }

    fn replace(&self, i: usize, s: i16) -> (r: Self) {
        let mut lanes = self.lanes;
        lanes[i] = s;
        Simd { lanes }
    }

    fn extract(&self, i: usize) -> (r: i16) {
        self.lanes[i]
    }

    fn merge_partitioned(&self, other: Self, n: usize) -> (r: Self) {
        Simd { lanes: merge_lanes(&self.lanes, &other.lanes, n) }
    }

    fn coalesce(&self) -> (r: i16) {
        self.lanes[0]
    }
}

impl Packable for i16 {
    open spec fn as_int(self) -> int {
        self as int
    }

    open spec fn spec_max() -> int {
        i16::MAX as int
    }

    type Vector = Simd<i16, 8>;

    open spec fn spec_size() -> nat {
        2
    }

    proof fn lemma_size() {
    }

    fn size() -> (s: usize) {
        2
    }

    fn zero() -> Self {
        0
    }
}

impl Packed for Simd<u32, 4> {
    type Scalar = u32;

    open spec fn lanes(&self) -> Seq<u32> {
        self.lanes@
    }

    open spec fn spec_width() -> nat {
        4
    }

    proof fn lemma_shape(v: Self) {
    }

    proof fn lemma_width() {
    }

    fn width() -> (w: usize) {
        4
    }

    fn load(data: &[u32], offset: usize) -> (r: Self) {
        Simd { lanes: load_lanes(data, offset) }
    }

    fn store(&self, data: &mut [u32], offset: usize) {
        store_lanes(&self.lanes, data, offset)
    }

    fn splat(s: u32) -> (r: Self) {
        let r = Simd { lanes: [s; 4] };
        assert(r.lanes@ =~= Seq::new(4, |i: int| s));
        r
    }

    fn replace(&self, i: usize, s: u32) -> (r: Self) {
        let mut lanes = self.lanes;
        lanes[i] = s;
        Simd { lanes }
    }

    fn extract(&self, i: usize) -> (r: u32) {
        self.lanes[i]
    }

    fn merge_partitioned(&self, other: Self, n: usize) -> (r: Self) {
        Simd { lanes: merge_lanes(&self.lanes, &other.lanes, n) }
    }

    fn coalesce(&self) -> (r: u32) {
        self.lanes[0]
    }
}

impl Packable for u32 {
    open spec fn as_int(self) -> int {
        self as int
    }

    open spec fn spec_max() -> int {
        u32::MAX as int
    }

    type Vector = Simd<u32, 4>;

    open spec fn spec_size() -> nat {
        4
    }

    proof fn lemma_size() {
    }

    fn size() -> (s: usize) {
        4
    }

    fn zero() -> Self {
        0
    }
}

impl Packed for Simd<i32, 4> {
    type Scalar = i32;

    open spec fn lanes(&self) -> Seq<i32> {
        self.lanes@
    }

    open spec fn spec_width() -> nat {
        4
    }

    proof fn lemma_shape(v: Self) {
    }

    proof fn lemma_width() {
    }

    fn width() -> (w: usize) {
        4
    }

    fn load(data: &[i32], offset: usize) -> (r: Self) {
        Simd { lanes: load_lanes(data, offset) }
    }

    fn store(&self, data: &mut [i32], offset: usize) {
        store_lanes(&self.lanes, data, offset)
    }

    fn splat(s: i32) -> (r: Self) {
        let r = Simd { lanes: [s; 4] };
        assert(r.lanes@ =~= Seq::new(4, |i: int| s));
        r
    }

    fn replace(&self, i: usize, s: i32) -> (r: Self) {
        let mut lanes = self.lanes;
        lanes[i] = s;
        Simd { lanes }
    }

    fn extract(&self, i: usize) -> (r: i32) {
        self.lanes[i]
    }

    fn merge_partitioned(&self, other: Self, n: usize) -> (r: Self) {
        Simd { lanes: merge_lanes(&self.lanes, &other.lanes, n) }
    }

    fn coalesce(&self) -> (r: i32) {
        self.lanes[0]
    }
}

impl Packable for i32 {
    open spec fn as_int(self) -> int {
        self as int
    }

    open spec fn spec_max() -> int {
        i32::MAX as int
    }

    type Vector = Simd<i32, 4>;

    open spec fn spec_size() -> nat {
        4
    }

    proof fn lemma_size() {
    }

    fn size() -> (s: usize) {
        4
    }

    fn zero() -> Self {
        0
    }
}

impl Packed for Simd<u64, 2> {
    type Scalar = u64;

    open spec fn lanes(&self) -> Seq<u64> {
        self.lanes@
    }

    open spec fn spec_width() -> nat {
        2
    }

    proof fn lemma_shape(v: Self) {
    }

    proof fn lemma_width() {
    }

    fn width() -> (w: usize) {
        2
    }

    fn load(data: &[u64], offset: usize) -> (r: Self) {
        Simd { lanes: load_lanes(data, offset) }
    }

    fn store(&self, data: &mut [u64], offset: usize) {
        store_lanes(&self.lanes, data, offset)
    }

    fn splat(s: u64) -> (r: Self) {
        let r = Simd { lanes: [s; 2] };
        assert(r.lanes@ =~= Seq::new(2, |i: int| s));
        r
    }

    fn replace(&self, i: usize, s: u64) -> (r: Self) {
        let mut lanes = self.lanes;
        lanes[i] = s;
        Simd { lanes }
    }

    fn extract(&self, i: usize) -> (r: u64) {
        self.lanes[i]
    }

    fn merge_partitioned(&self, other: Self, n: usize) -> (r: Self) {
        Simd { lanes: merge_lanes(&self.lanes, &other.lanes, n) }
    }

    fn coalesce(&self) -> (r: u64) {
        self.lanes[0]
    }
}

impl Packable for u64 {
    open spec fn as_int(self) -> int {
        self as int
    }

    open spec fn spec_max() -> int {
        u64::MAX as int
    }

    type Vector = Simd<u64, 2>;

    open spec fn spec_size() -> nat {
        8
    }

    proof fn lemma_size() {
    }

    fn size() -> (s: usize) {
        8
    }

    fn zero() -> Self {
        0
    }
}

impl Packed for Simd<i64, 2> {
    type Scalar = i64;

    open spec fn lanes(&self) -> Seq<i64> {
        self.lanes@
    }

    open spec fn spec_width() -> nat {
        2
    }

    proof fn lemma_shape(v: Self) {
    }

    proof fn lemma_width() {
    }

    fn width() -> (w: usize) {
        2
    }

    fn load(data: &[i64], offset: usize) -> (r: Self) {
        Simd { lanes: load_lanes(data, offset) }
    }

    fn store(&self, data: &mut [i64], offset: usize) {
        store_lanes(&self.lanes, data, offset)
    }

    fn splat(s: i64) -> (r: Self) {
        let r = Simd { lanes: [s; 2] };
        assert(r.lanes@ =~= Seq::new(2, |i: int| s));
        r
    }

    fn replace(&self, i: usize, s: i64) -> (r: Self) {
        let mut lanes = self.lanes;
        lanes[i] = s;
        Simd { lanes }
    }

    fn extract(&self, i: usize) -> (r: i64) {
        self.lanes[i]
    }

    fn merge_partitioned(&self, other: Self, n: usize) -> (r: Self) {
        Simd { lanes: merge_lanes(&self.lanes, &other.lanes, n) }
    }

    fn coalesce(&self) -> (r: i64) {
        self.lanes[0]
    }
}

impl Packable for i64 {
    open spec fn as_int(self) -> int {
        self as int
    }

    open spec fn spec_max() -> int {
        i64::MAX as int
    }

    type Vector = Simd<i64, 2>;

    open spec fn spec_size() -> nat {
        8
    }

    proof fn lemma_size() {
    }

    fn size() -> (s: usize) {
        8
    }

    fn zero() -> Self {
        0
    }
}

} // verus!
