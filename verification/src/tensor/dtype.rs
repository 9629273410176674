use vstd::prelude::*;
use vstd::bytes::{
    spec_u16_to_le_bytes, spec_u16_from_le_bytes, lemma_auto_spec_u16_to_from_le_bytes,
    spec_u32_to_le_bytes, spec_u32_from_le_bytes, lemma_auto_spec_u32_to_from_le_bytes,
    spec_u64_to_le_bytes, spec_u64_from_le_bytes, lemma_auto_spec_u64_to_from_le_bytes,
    u16_from_le_bytes, u16_to_le_bytes, u32_from_le_bytes, u32_to_le_bytes, u64_from_le_bytes,
    u64_to_le_bytes,
};
use vstd::slice::slice_subrange;

verus! {

/// Logical element type of a tensor, with a fixed byte width per element.
///
/// Floating-point elements are handled throughout this crate by their IEEE-754
/// bit patterns (`u32` for Float32, `u16` for Float16/BFloat16), so that the
/// storage engine itself never performs floating-point arithmetic.
#[derive(Debug, Clone, Copy, PartialEq, Eq, Hash, Structural)]
pub enum DType {
    Float32,
    Float16,
    BFloat16,
    Int32,
    Int64,
    Bool,
}

impl DType {
    /// Byte width of one element of this type.
    pub open spec fn spec_size(self) -> int {
        match self {
            DType::Float32 => 4,
            DType::Float16 => 2,
            DType::BFloat16 => 2,
            DType::Int32 => 4,
            DType::Int64 => 8,
            DType::Bool => 1,
        }
    }

    pub fn size(&self) -> (r: usize)
        ensures
            r == self.spec_size(),
            1 <= r <= 8,
    {
        match self {
            DType::Float32 => 4,
            DType::Float16 => 2,
            DType::BFloat16 => 2,
            DType::Int32 => 4,
            DType::Int64 => 8,
            DType::Bool => 1,
        }
    }
}

/// A Rust carrier type for tensor elements of one particular `DType`.
///
/// `u32` carries Float32 bit patterns, `u16` carries Float16 bit patterns,
/// `u8` carries Bool, and `i32`/`i64` carry the integer types directly.
/// Every element is identified with its little-endian byte encoding, which is
/// what the tensor's `Storage` holds.
pub trait Element: Sized + Copy {
    /// The dtype that this carrier type stands for.
    spec fn spec_dtype() -> DType;

    /// The little-endian byte encoding of this element.
    spec fn spec_to_bytes(self) -> Seq<u8>;

    proof fn lemma_bytes_len(self)
        ensures
            self.spec_to_bytes().len() == Self::spec_dtype().spec_size(),
    ;

    /// The byte encoding determines the element: equal encodings mean
    /// equal values.
    proof fn lemma_to_bytes_injective(self, other: Self)
        ensures
            self.spec_to_bytes() == other.spec_to_bytes() ==> self == other,
    ;

    fn dtype() -> (d: DType)
        ensures
            d == Self::spec_dtype(),
    ;

    /// The zero value of the carrier type, handed back where an interface
    /// falls back to a default element.
    spec fn spec_default() -> Self;

    fn default_value() -> (r: Self)
        ensures
            r == Self::spec_default(),
    ;

    /// Appends this element's byte encoding to `out`.
    fn append_bytes(self, out: &mut Vec<u8>)
        ensures
            final(out)@ == old(out)@ + self.spec_to_bytes(),
    ;

    /// Reads one element whose encoding starts at byte `start` of `buf`.
    fn read_at(buf: &[u8], start: usize) -> (r: Self)
        requires
            start + Self::spec_dtype().spec_size() <= buf@.len(),
        ensures
            r.spec_to_bytes() == buf@.subrange(
                start as int,
                start + Self::spec_dtype().spec_size(),
            ),
    ;
}

impl Element for u32 {
    open spec fn spec_dtype() -> DType {
        DType::Float32
    }

    open spec fn spec_to_bytes(self) -> Seq<u8> {
        spec_u32_to_le_bytes(self)
    }

    proof fn lemma_bytes_len(self) {
        lemma_auto_spec_u32_to_from_le_bytes();
    }

    proof fn lemma_to_bytes_injective(self, other: Self) {
        lemma_auto_spec_u32_to_from_le_bytes();
        if self.spec_to_bytes() == other.spec_to_bytes() {
            assert(spec_u32_to_le_bytes(self).len() == 4);
            assert(spec_u32_to_le_bytes(other).len() == 4);
            assert(spec_u32_from_le_bytes(spec_u32_to_le_bytes(self)) == self);
            assert(spec_u32_from_le_bytes(spec_u32_to_le_bytes(other)) == other);
        }
    }

    fn dtype() -> (d: DType) {
        DType::Float32
    }

    open spec fn spec_default() -> Self {
        0u32
    }

    fn default_value() -> (r: Self) {
        0
    }

    fn append_bytes(self, out: &mut Vec<u8>) {
        proof {
            lemma_auto_spec_u32_to_from_le_bytes();
        }
        let mut b = u32_to_le_bytes(self);
        out.append(&mut b);
    }

    fn read_at(buf: &[u8], start: usize) -> (r: Self) {
        proof {
            lemma_auto_spec_u32_to_from_le_bytes();
        }
        let n = buf.len();
        assert(start + 4 <= n);
        let sub = slice_subrange(buf, start, start + 4);
        u32_from_le_bytes(sub)
    }
}

impl Element for i32 {
    open spec fn spec_dtype() -> DType {
        DType::Int32
    }

    open spec fn spec_to_bytes(self) -> Seq<u8> {
        spec_u32_to_le_bytes(self as u32)
    }

    proof fn lemma_bytes_len(self) {
        lemma_auto_spec_u32_to_from_le_bytes();
    }

    proof fn lemma_to_bytes_injective(self, other: Self) {
        lemma_auto_spec_u32_to_from_le_bytes();
        if self.spec_to_bytes() == other.spec_to_bytes() {
            assert(spec_u32_to_le_bytes(self as u32).len() == 4);
            assert(spec_u32_to_le_bytes(other as u32).len() == 4);
            assert(spec_u32_from_le_bytes(spec_u32_to_le_bytes(self as u32)) == self as u32);
            assert(spec_u32_from_le_bytes(spec_u32_to_le_bytes(other as u32)) == other as u32);
            let a = self;
            let b = other;
            assert(a as u32 == b as u32 ==> a == b) by (bit_vector);
        }
    }

    fn dtype() -> (d: DType) {
        DType::Int32
    }

    open spec fn spec_default() -> Self {
        0i32
    }

    fn default_value() -> (r: Self) {
        0
    }

    fn append_bytes(self, out: &mut Vec<u8>) {
        proof {
            lemma_auto_spec_u32_to_from_le_bytes();
        }
        let mut b = u32_to_le_bytes(self as u32);
        out.append(&mut b);
    }

    fn read_at(buf: &[u8], start: usize) -> (r: Self) {
        proof {
            lemma_auto_spec_u32_to_from_le_bytes();
        }
        let n = buf.len();
        assert(start + 4 <= n);
        let sub = slice_subrange(buf, start, start + 4);
        let x = u32_from_le_bytes(sub);
        proof {
            assert((x as i32) as u32 == x) by (bit_vector);
        }
        #[verifier::truncate] (x as i32)
    }
}

impl Element for i64 {
    open spec fn spec_dtype() -> DType {
        DType::Int64
    }

    open spec fn spec_to_bytes(self) -> Seq<u8> {
        spec_u64_to_le_bytes(self as u64)
    }

    proof fn lemma_bytes_len(self) {
        lemma_auto_spec_u64_to_from_le_bytes();
    }

    proof fn lemma_to_bytes_injective(self, other: Self) {
        lemma_auto_spec_u64_to_from_le_bytes();
        if self.spec_to_bytes() == other.spec_to_bytes() {
            assert(spec_u64_to_le_bytes(self as u64).len() == 8);
            assert(spec_u64_to_le_bytes(other as u64).len() == 8);
            assert(spec_u64_from_le_bytes(spec_u64_to_le_bytes(self as u64)) == self as u64);
            assert(spec_u64_from_le_bytes(spec_u64_to_le_bytes(other as u64)) == other as u64);
            let a = self;
            let b = other;
            assert(a as u64 == b as u64 ==> a == b) by (bit_vector);
        }
    }

    fn dtype() -> (d: DType) {
        DType::Int64
    }

    open spec fn spec_default() -> Self {
        0i64
    }

    fn default_value() -> (r: Self) {
        0
    }

    fn append_bytes(self, out: &mut Vec<u8>) {
        proof {
            lemma_auto_spec_u64_to_from_le_bytes();
        }
        let mut b = u64_to_le_bytes(self as u64);
        out.append(&mut b);
    }

    fn read_at(buf: &[u8], start: usize) -> (r: Self) {
        proof {
            lemma_auto_spec_u64_to_from_le_bytes();
        }
        let n = buf.len();
        assert(start + 8 <= n);
        let sub = slice_subrange(buf, start, start + 8);
        let x = u64_from_le_bytes(sub);
        proof {
            assert((x as i64) as u64 == x) by (bit_vector);
        }
        #[verifier::truncate] (x as i64)
    }
}

impl Element for u16 {
    open spec fn spec_dtype() -> DType {
        DType::Float16
    }

    open spec fn spec_to_bytes(self) -> Seq<u8> {
        spec_u16_to_le_bytes(self)
    }

    proof fn lemma_bytes_len(self) {
        lemma_auto_spec_u16_to_from_le_bytes();
    }

    proof fn lemma_to_bytes_injective(self, other: Self) {
        lemma_auto_spec_u16_to_from_le_bytes();
        if self.spec_to_bytes() == other.spec_to_bytes() {
            assert(spec_u16_to_le_bytes(self).len() == 2);
            assert(spec_u16_to_le_bytes(other).len() == 2);
            assert(spec_u16_from_le_bytes(spec_u16_to_le_bytes(self)) == self);
            assert(spec_u16_from_le_bytes(spec_u16_to_le_bytes(other)) == other);
        }
    }

    fn dtype() -> (d: DType) {
        DType::Float16
    }

    open spec fn spec_default() -> Self {
        0u16
    }

    fn default_value() -> (r: Self) {
        0
    }

    fn append_bytes(self, out: &mut Vec<u8>) {
        proof {
            lemma_auto_spec_u16_to_from_le_bytes();
        }
        let mut b = u16_to_le_bytes(self);
        out.append(&mut b);
    }

    fn read_at(buf: &[u8], start: usize) -> (r: Self) {
        proof {
            lemma_auto_spec_u16_to_from_le_bytes();
        }
        let n = buf.len();
        assert(start + 2 <= n);
        let sub = slice_subrange(buf, start, start + 2);
        u16_from_le_bytes(sub)
    }
}

impl Element for u8 {
    open spec fn spec_dtype() -> DType {
        DType::Bool
    }

    open spec fn spec_to_bytes(self) -> Seq<u8> {
        seq![self]
    }

    proof fn lemma_bytes_len(self) {
    }

    proof fn lemma_to_bytes_injective(self, other: Self) {
        if self.spec_to_bytes() == other.spec_to_bytes() {
            assert(self.spec_to_bytes()[0] == other.spec_to_bytes()[0]);
        }
    }

    fn dtype() -> (d: DType) {
        DType::Bool
    }

    open spec fn spec_default() -> Self {
        0u8
    }

    fn default_value() -> (r: Self) {
        0
    }

    fn append_bytes(self, out: &mut Vec<u8>) {
        out.push(self);
        proof {
            assert(final(out)@ =~= old(out)@ + self.spec_to_bytes());
        }
    }

    fn read_at(buf: &[u8], start: usize) -> (r: Self) {
        let r = buf[start];
        proof {
            assert(r.spec_to_bytes() =~= buf@.subrange(start as int, start + 1));
        }
        r
    }
}

/// Succeeds exactly when the carrier type `T` stands for `dtype`.
pub fn check_dtype_match<T: Element>(dtype: DType) -> (r: Result<(), String>)
    ensures
        r is Ok <==> dtype == T::spec_dtype(),
{
    let expected = T::dtype();
    if expected == dtype {
        Ok(())
    } else {
        Err("Type mismatch between requested element type and tensor dtype".to_owned())
    }
}

pub type Array1d<T> = Vec<T>;

pub type Array2d<T> = Vec<Vec<T>>;

pub type Array3d<T> = Vec<Vec<Vec<T>>>;

/// The row-major flattening of a two-dimensional array, as a sequence.
pub open spec fn spec_flatten_2d<T>(arr: Seq<Seq<T>>) -> Seq<T> {
    arr.flatten()
}

/// The bytes of a whole element sequence: each element's encoding, in order.
pub open spec fn bytes_of_elems<T: Element>(s: Seq<T>) -> Seq<u8> {
    s.map_values(|e: T| e.spec_to_bytes()).flatten()
}

pub proof fn lemma_bytes_of_elems_push<T: Element>(s: Seq<T>, x: T)
    ensures
        bytes_of_elems(s.push(x)) == bytes_of_elems(s) + x.spec_to_bytes(),
{
    assert(s.push(x).map_values(|e: T| e.spec_to_bytes()) =~= s.map_values(
        |e: T| e.spec_to_bytes(),
    ).push(x.spec_to_bytes()));
    lemma_flatten_push(s.map_values(|e: T| e.spec_to_bytes()), x.spec_to_bytes());
}

pub proof fn lemma_bytes_of_elems_len<T: Element>(s: Seq<T>)
    ensures
        bytes_of_elems(s).len() == s.len() * T::spec_dtype().spec_size(),
    decreases s.len(),
{
    let w = T::spec_dtype().spec_size();
    if s.len() == 0 {
        assert(s.map_values(|e: T| e.spec_to_bytes()) =~= Seq::<Seq<u8>>::empty());
    } else {
        let m = s.map_values(|e: T| e.spec_to_bytes());
        assert(m.drop_first() =~= s.drop_first().map_values(|e: T| e.spec_to_bytes()));
        lemma_bytes_of_elems_len::<T>(s.drop_first());
        s[0].lemma_bytes_len();
        assert(m.first() == s[0].spec_to_bytes());
        assert(bytes_of_elems(s).len() == w + (s.len() - 1) * w);
        assert(w + (s.len() - 1) * w == s.len() * w) by (nonlinear_arith);
    }
}

pub proof fn lemma_bytes_of_elems_index<T: Element>(s: Seq<T>, i: int)
    requires
        0 <= i < s.len(),
    ensures
        bytes_of_elems(s).subrange(
            i * T::spec_dtype().spec_size(),
            (i + 1) * T::spec_dtype().spec_size(),
        ) == s[i].spec_to_bytes(),
    decreases i,
{
    let w = T::spec_dtype().spec_size();
    let m = s.map_values(|e: T| e.spec_to_bytes());
    assert(m.drop_first() =~= s.drop_first().map_values(|e: T| e.spec_to_bytes()));
    assert(m.first() == s[0].spec_to_bytes());
    s[0].lemma_bytes_len();
    lemma_bytes_of_elems_len::<T>(s);
    lemma_bytes_of_elems_len::<T>(s.drop_first());
    assert(bytes_of_elems(s) == s[0].spec_to_bytes() + bytes_of_elems(s.drop_first()));
    if i == 0 {
        assert((0 + 1) * w == w) by (nonlinear_arith);
        assert(bytes_of_elems(s).subrange(0, w) =~= s[0].spec_to_bytes());
    } else {
        lemma_bytes_of_elems_index::<T>(s.drop_first(), i - 1);
        assert(i * w - w == (i - 1) * w) by (nonlinear_arith);
        assert((i + 1) * w - w == i * w) by (nonlinear_arith);
        assert(i * w >= w) by (nonlinear_arith)
            requires
                i >= 1,
                w >= 1,
        ;
        assert((i + 1) * w <= s.len() * w) by (nonlinear_arith)
            requires
                i + 1 <= s.len(),
                w >= 1,
        ;
        assert(bytes_of_elems(s).subrange(i * w, (i + 1) * w) =~= bytes_of_elems(
            s.drop_first(),
        ).subrange((i - 1) * w, i * w));
        assert(s.drop_first()[i - 1] == s[i]);
    }
}


/// Reading a freshly written element buffer back reproduces the written
/// elements, whatever the carrier type: a list whose entries' encodings
/// are the consecutive chunks of `bytes_of_elems(data)` is `data` itself.
/// This is the row-major read-back law behind `new_from_data` followed by
/// `to_list`.
pub proof fn lemma_elements_read_back<T: Element>(v: Seq<T>, data: Seq<T>)
    requires
        v.len() == data.len(),
        forall|i: int|
            0 <= i < v.len() ==> (#[trigger] v[i]).spec_to_bytes() == bytes_of_elems(
                data,
            ).subrange(
                i * T::spec_dtype().spec_size(),
                (i + 1) * T::spec_dtype().spec_size(),
            ),
    ensures
        v == data,
{
    assert forall|i: int| 0 <= i < v.len() implies v[i] == data[i] by {
        lemma_bytes_of_elems_index::<T>(data, i);
        assert(v[i].spec_to_bytes() == data[i].spec_to_bytes());
        v[i].lemma_to_bytes_injective(data[i]);
    }
    assert(v =~= data);
}

/// Equal encodings of equally long element sequences mean equal sequences.
pub proof fn lemma_bytes_of_elems_injective<T: Element>(a: Seq<T>, b: Seq<T>)
    requires
        a.len() == b.len(),
        bytes_of_elems(a) == bytes_of_elems(b),
    ensures
        a == b,
{
    let w = T::spec_dtype().spec_size();
    assert forall|i: int| 0 <= i < a.len() implies a[i] == b[i] by {
        lemma_bytes_of_elems_index::<T>(a, i);
        lemma_bytes_of_elems_index::<T>(b, i);
        assert(a[i].spec_to_bytes() == b[i].spec_to_bytes());
        a[i].lemma_to_bytes_injective(b[i]);
    }
    assert(a =~= b);
}

/// A flattened sequence splits at any chunk boundary.
pub proof fn lemma_flatten_split<T>(m: Seq<Seq<T>>, k: int)
    requires
        0 <= k <= m.len(),
    ensures
        m.flatten() == m.take(k).flatten() + m.skip(k).flatten(),
    decreases k,
{
    if k == 0 {
        assert(m.take(0) =~= Seq::<Seq<T>>::empty());
        assert(Seq::<Seq<T>>::empty().flatten() =~= Seq::<T>::empty());
        assert(m.skip(0) =~= m);
        assert(m.flatten() =~= m.take(0).flatten() + m.skip(0).flatten());
    } else {
        lemma_flatten_split(m, k - 1);
        assert(m.take(k) =~= m.take(k - 1).push(m[k - 1]));
        lemma_flatten_push(m.take(k - 1), m[k - 1]);
        assert(m.skip(k - 1).len() > 0);
        assert(m.skip(k - 1).first() == m[k - 1]);
        assert(m.skip(k - 1).drop_first() =~= m.skip(k));
        assert(m.skip(k - 1).flatten() == m[k - 1] + m.skip(k).flatten());
        assert(m.take(k - 1).flatten() + (m[k - 1] + m.skip(k).flatten()) =~= (m.take(
            k - 1,
        ).flatten() + m[k - 1]) + m.skip(k).flatten());
    }
}

/// The head chunk of a flattening at a chunk boundary.
pub proof fn lemma_flatten_head<T>(m: Seq<Seq<T>>, k: int)
    requires
        0 <= k < m.len(),
    ensures
        m.skip(k).flatten() == m[k] + m.skip(k + 1).flatten(),
{
    assert(m.skip(k).len() > 0);
    assert(m.skip(k).first() == m[k]);
    assert(m.skip(k).drop_first() =~= m.skip(k + 1));
}

pub(crate) proof fn lemma_flatten_push<T>(s: Seq<Seq<T>>, x: Seq<T>)
    ensures
        s.push(x).flatten() == s.flatten() + x,
    decreases s.len(),
{
    if s.len() == 0 {
        assert(s.push(x).len() == 1);
        assert(s.push(x).first() == x);
        assert(s.push(x).drop_first() =~= Seq::<Seq<T>>::empty());
        assert(Seq::<Seq<T>>::empty().flatten() =~= Seq::<T>::empty());
        assert(s.push(x).flatten() =~= x);
        assert(s.flatten() + x =~= x);
    } else {
        assert(s.push(x).drop_first() =~= s.drop_first().push(x));
        lemma_flatten_push(s.drop_first(), x);
        assert(s.push(x).flatten() =~= s.flatten() + x);
    }
}

/// Flattens rows into one row-major vector.
pub fn flatten_2d<T: Copy>(arr: &Array2d<T>) -> (r: Array1d<T>)
    ensures
        r@ == spec_flatten_2d(arr@.map_values(|row: Vec<T>| row@)),
{
    let ghost rows = arr@.map_values(|row: Vec<T>| row@);
    let mut out: Vec<T> = Vec::new();
    assert(rows.take(0) =~= Seq::<Seq<T>>::empty());
    assert(rows.take(0).flatten() =~= Seq::<T>::empty());
    for i in 0..arr.len()
        invariant
            rows == arr@.map_values(|row: Vec<T>| row@),
            out@ == rows.take(i as int).flatten(),
    {
        let row = &arr[i];
        let mut j: usize = 0;
        while j < row.len()
            invariant
                rows == arr@.map_values(|row: Vec<T>| row@),
                j <= row@.len(),
                row@ == rows[i as int],
                i < rows.len(),
                out@ == rows.take(i as int).flatten() + row@.take(j as int),
            decreases row@.len() - j,
        {
            out.push(row[j]);
            j += 1;
            assert(row@.take(j as int) =~= row@.take(j - 1).push(row@[j - 1]));
            assert(out@ =~= rows.take(i as int).flatten() + row@.take(j as int));
        }
        proof {
            assert(row@.take(j as int) =~= row@);
            lemma_flatten_push(rows.take(i as int), rows[i as int]);
            assert(rows.take(i + 1) =~= rows.take(i as int).push(rows[i as int]));
        }
    }
    proof {
        assert(rows.take(arr@.len() as int) =~= rows);
    }
    out
}

/// The row-major flattening of a three-dimensional array, as a sequence.
pub open spec fn spec_flatten_3d<T>(arr: Seq<Seq<Seq<T>>>) -> Seq<T> {
    arr.map_values(|plane: Seq<Seq<T>>| plane.flatten()).flatten()
}

/// Flattens a three-dimensional array into one row-major vector.
pub fn flatten_3d<T: Copy>(arr: &Array3d<T>) -> (r: Array1d<T>)
    ensures
        r@ == spec_flatten_3d(arr@.map_values(|plane: Vec<Vec<T>>| plane@.map_values(|row: Vec<T>| row@))),
{
    let ghost planes = arr@.map_values(|plane: Vec<Vec<T>>| plane@.map_values(|row: Vec<T>| row@));
    let ghost flat_planes = planes.map_values(|plane: Seq<Seq<T>>| plane.flatten());
    let mut out: Vec<T> = Vec::new();
    assert(flat_planes.take(0) =~= Seq::<Seq<T>>::empty());
    assert(flat_planes.take(0).flatten() =~= Seq::<T>::empty());
    for i in 0..arr.len()
        invariant
            planes == arr@.map_values(|plane: Vec<Vec<T>>| plane@.map_values(|row: Vec<T>| row@)),
            flat_planes == planes.map_values(|plane: Seq<Seq<T>>| plane.flatten()),
            out@ == flat_planes.take(i as int).flatten(),
    {
        let mut chunk = flatten_2d(&arr[i]);
        proof {
            assert(chunk@ == flat_planes[i as int]);
            lemma_flatten_push(flat_planes.take(i as int), flat_planes[i as int]);
            assert(flat_planes.take(i + 1) =~= flat_planes.take(i as int).push(flat_planes[i as int]));
        }
        out.append(&mut chunk);
    }
    proof {
        assert(flat_planes.take(arr@.len() as int) =~= flat_planes);
    }
    out
}

pub const MAX_TENSOR_DIM: usize = 8;

/// A pair of spatial extents (height and width).
#[derive(Debug, Clone, Copy)]
pub struct Dim2D {
    pub h: i64,
    pub w: i64,
}

impl Dim2D {
    pub fn new(n: i64) -> (r: Self)
        ensures
            r == (Dim2D { h: n, w: n }),
    {
        Self { h: n, w: n }
    }

    pub fn new_hw(h: i64, w: i64) -> (r: Self)
        ensures
            r == (Dim2D { h, w }),
    {
        Self { h, w }
    }
}

} // verus!
