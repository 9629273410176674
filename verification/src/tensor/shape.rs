use vstd::prelude::*;

verus! {

/// Product of a sequence of dimension sizes. The empty product is 1, so a
/// zero-dimensional (scalar) shape holds exactly one element.
pub open spec fn shape_product(s: Seq<i64>) -> int
    decreases s.len(),
{
    if s.len() == 0 {
        1
    } else {
        s[0] * shape_product(s.drop_first())
    }
}

/// Product of the dimensions from position `k` (inclusive) to the end.
pub open spec fn suffix_product(s: Seq<i64>, k: int) -> int {
    shape_product(s.skip(k))
}

/// Every dimension size is non-negative.
pub open spec fn valid_dims(s: Seq<i64>) -> bool {
    forall|i: int| 0 <= i < s.len() ==> s[i] >= 0
}

/// Every suffix product of the shape fits in an `i64`, so the contiguous
/// strides and the element count are all representable.
pub open spec fn strides_fit(s: Seq<i64>) -> bool {
    forall|k: int| 0 <= k <= s.len() ==> #[trigger] suffix_product(s, k) <= i64::MAX
}

/// A shape this engine can lay out: non-negative dimensions, representable
/// suffix products, and a dimension count that fits in an `i64`.
pub open spec fn layout_ok(s: Seq<i64>) -> bool {
    valid_dims(s) && strides_fit(s) && s.len() <= i64::MAX
}

/// The strides of a freshly laid out (contiguous, row-major) tensor of shape
/// `s`: the last dimension has stride 1 and `strides[i]` is the product of all
/// dimensions to the right of `i`.
pub open spec fn contig_strides(s: Seq<i64>) -> Seq<i64> {
    Seq::new(s.len(), |i: int| suffix_product(s, i + 1) as i64)
}

pub proof fn lemma_suffix_step(s: Seq<i64>, k: int)
    requires
        0 <= k < s.len(),
    ensures
        suffix_product(s, k) == s[k] * suffix_product(s, k + 1),
{
    assert(s.skip(k).drop_first() =~= s.skip(k + 1));
    assert(s.skip(k)[0] == s[k]);
}

pub proof fn lemma_suffix_end(s: Seq<i64>)
    ensures
        suffix_product(s, s.len() as int) == 1,
{
    assert(s.skip(s.len() as int) =~= Seq::<i64>::empty());
}

pub proof fn lemma_product_nonneg(s: Seq<i64>)
    requires
        valid_dims(s),
    ensures
        shape_product(s) >= 0,
    decreases s.len(),
{
    if s.len() > 0 {
        assert(valid_dims(s.drop_first()));
        lemma_product_nonneg(s.drop_first());
        assert(s[0] >= 0);
    }
}

pub proof fn lemma_suffix_nonneg(s: Seq<i64>, k: int)
    requires
        valid_dims(s),
        0 <= k <= s.len(),
    ensures
        suffix_product(s, k) >= 0,
{
    assert(valid_dims(s.skip(k)));
    lemma_product_nonneg(s.skip(k));
}

/// If the whole product is at least 1, every dimension is at least 1.
pub proof fn lemma_positive_product_positive_dims(s: Seq<i64>)
    requires
        valid_dims(s),
        shape_product(s) >= 1,
    ensures
        forall|i: int| 0 <= i < s.len() ==> s[i] >= 1,
    decreases s.len(),
{
    if s.len() > 0 {
        assert(valid_dims(s.drop_first()));
        lemma_product_nonneg(s.drop_first());
        let a = s[0];
        let b = shape_product(s.drop_first());
        assert(shape_product(s) == a * b);
        if a == 0 {
            assert(a * b == 0) by (nonlinear_arith)
                requires
                    a == 0,
            ;
        }
        if b == 0 {
            assert(a * b == 0) by (nonlinear_arith)
                requires
                    b == 0,
            ;
        }
        assert(a >= 1 && b >= 1);
        lemma_positive_product_positive_dims(s.drop_first());
        assert forall|i: int| 0 <= i < s.len() implies s[i] >= 1 by {
            if i > 0 {
                assert(s[i] == s.drop_first()[i - 1]);
            }
        }
    }
}

/// With all dimensions at least 1, the product is at least 1.
pub proof fn lemma_product_positive(s: Seq<i64>)
    requires
        forall|i: int| 0 <= i < s.len() ==> s[i] >= 1,
    ensures
        shape_product(s) >= 1,
    decreases s.len(),
{
    if s.len() > 0 {
        assert(forall|i: int| 0 <= i < s.drop_first().len() ==> s.drop_first()[i] >= 1);
        lemma_product_positive(s.drop_first());
        let a = s[0];
        let b = shape_product(s.drop_first());
        assert(a * b >= 1) by (nonlinear_arith)
            requires
                a >= 1,
                b >= 1,
        ;
    }
}

/// With all dimensions at least 1, a suffix product never exceeds the whole
/// product, so a shape whose product fits in `i64` has fitting strides.
pub proof fn lemma_suffix_le_product(s: Seq<i64>, k: int)
    requires
        forall|i: int| 0 <= i < s.len() ==> s[i] >= 1,
        0 <= k <= s.len(),
    ensures
        1 <= suffix_product(s, k) <= shape_product(s),
    decreases k,
{
    if k == 0 {
        assert(s.skip(0) =~= s);
        lemma_product_positive(s);
    } else {
        lemma_suffix_le_product(s, k - 1);
        lemma_suffix_step(s, k - 1);
        let a = s[k - 1];
        let b = suffix_product(s, k);
        assert(a >= 1);
        assert(1 <= a * b <= shape_product(s));
        assert(b >= 1) by (nonlinear_arith)
            requires
                a >= 1,
                a * b >= 1,
        ;
        assert(b <= a * b) by (nonlinear_arith)
            requires
                a >= 1,
                b >= 1,
        ;
        assert(suffix_product(s, k) >= 1);
        assert(suffix_product(s, k) <= shape_product(s));
    }
}

/// A shape whose dimensions are positive and whose product fits in `i64`
/// has fitting strides.
pub proof fn lemma_fits_of_positive(s: Seq<i64>)
    requires
        valid_dims(s),
        1 <= shape_product(s) <= i64::MAX,
    ensures
        strides_fit(s),
{
    lemma_positive_product_positive_dims(s);
    assert forall|k: int| 0 <= k <= s.len() implies #[trigger] suffix_product(s, k) <= i64::MAX by {
        lemma_suffix_le_product(s, k);
    }
}

/// The product of a concatenation is the product of the parts.
pub proof fn lemma_product_append(a: Seq<i64>, b: Seq<i64>)
    ensures
        shape_product(a + b) == shape_product(a) * shape_product(b),
    decreases a.len(),
{
    if a.len() == 0 {
        assert(a + b =~= b);
    } else {
        assert((a + b).drop_first() =~= a.drop_first() + b);
        lemma_product_append(a.drop_first(), b);
        let x = a[0];
        let p = shape_product(a.drop_first());
        let q = shape_product(b);
        assert((a + b)[0] == x);
        assert(shape_product(a + b) == x * (p * q));
        assert(x * (p * q) == (x * p) * q) by (nonlinear_arith);
    }
}

/// The element count of a two-dimensional shape is the product of its two
/// dimensions.
pub proof fn lemma_product_pair(s: Seq<i64>)
    requires
        s.len() == 2,
    ensures
        shape_product(s) == s[0] * s[1],
{
    let rest = s.drop_first();
    assert(rest.len() == 1);
    assert(rest[0] == s[1]);
    assert(rest.drop_first() =~= Seq::<i64>::empty());
    assert(shape_product(rest) == rest[0] * shape_product(Seq::<i64>::empty()));
    assert(s[1] * 1 == s[1]) by (nonlinear_arith);
    assert(shape_product(s) == s[0] * shape_product(rest));
}

/// A shape with a zero dimension holds no elements.
pub proof fn lemma_product_zero(s: Seq<i64>, i: int)
    requires
        0 <= i < s.len(),
        s[i] == 0,
    ensures
        shape_product(s) == 0,
{
    let a = s.take(i);
    let mid = seq![s[i]];
    let b = s.skip(i + 1);
    assert(s =~= a + mid + b);
    lemma_product_append(a + mid, b);
    lemma_product_append(a, mid);
    assert(mid.len() == 1);
    assert(mid[0] == 0);
    assert(mid.drop_first() =~= Seq::<i64>::empty());
    assert(shape_product(mid) == mid[0] * shape_product(Seq::<i64>::empty()));
    assert(0int * 1 == 0) by (nonlinear_arith);
    assert(shape_product(mid) == 0);
    let pa = shape_product(a);
    let pb = shape_product(b);
    assert(pa * 0 == 0) by (nonlinear_arith);
    assert(0int * pb == 0) by (nonlinear_arith);
}

/// Removing a dimension of size 1 does not change the element count.
pub proof fn lemma_product_remove_one(s: Seq<i64>, j: int)
    requires
        0 <= j < s.len(),
        s[j] == 1,
    ensures
        shape_product(s.remove(j)) == shape_product(s),
{
    let a = s.take(j);
    let mid = seq![s[j]];
    let b = s.skip(j + 1);
    assert(s =~= a + mid + b);
    assert(s.remove(j) =~= a + b);
    lemma_product_append(a, b);
    lemma_product_append(a + mid, b);
    lemma_product_append(a, mid);
    assert(mid.drop_first() =~= Seq::<i64>::empty());
    assert(shape_product(mid) == mid[0] * shape_product(Seq::<i64>::empty()));
    assert(shape_product(mid) == 1);
    assert(shape_product(a) * 1 == shape_product(a)) by (nonlinear_arith);
    assert(shape_product(a + mid) == shape_product(a));
    assert(shape_product(s) == shape_product(a) * shape_product(b));
}

/// Inserting a dimension of size 1 does not change the element count.
pub proof fn lemma_product_insert_one(s: Seq<i64>, j: int)
    requires
        0 <= j <= s.len(),
    ensures
        shape_product(s.insert(j, 1i64)) == shape_product(s),
{
    let t = s.insert(j, 1i64);
    assert(t[j] == 1);
    assert(t.remove(j) =~= s);
    lemma_product_remove_one(t, j);
}

/// Removing a dimension of size 1 from a contiguous layout leaves a
/// contiguous layout: the strides of the smaller shape are the old strides
/// with the removed dimension's entry dropped.
pub proof fn lemma_contig_remove_one(s: Seq<i64>, j: int)
    requires
        0 <= j < s.len(),
        s[j] == 1,
    ensures
        contig_strides(s.remove(j)) =~= contig_strides(s).remove(j),
        valid_dims(s) ==> valid_dims(s.remove(j)),
        strides_fit(s) ==> strides_fit(s.remove(j)),
{
    let r = s.remove(j);
    assert forall|k: int| 0 <= k <= r.len() implies #[trigger] suffix_product(r, k)
        == if k <= j {
        suffix_product(s, k)
    } else {
        suffix_product(s, k + 1)
    } by {
        if k <= j {
            assert(r.skip(k) =~= s.skip(k).remove(j - k));
            assert(s.skip(k)[j - k] == 1);
            lemma_product_remove_one(s.skip(k), j - k);
        } else {
            assert(r.skip(k) =~= s.skip(k + 1));
        }
    }
    assert forall|i: int| 0 <= i < r.len() implies contig_strides(r)[i] == contig_strides(
        s,
    ).remove(j)[i] by {
        if i < j {
            assert(suffix_product(r, i + 1) == suffix_product(s, i + 1));
        } else {
            assert(suffix_product(r, i + 1) == suffix_product(s, i + 2));
        }
    }
}

/// Inserting a dimension of size 1 keeps the dimensions valid and the
/// suffix products representable, and leaves the element count unchanged.
pub proof fn lemma_insert_one_dims(s: Seq<i64>, j: int)
    requires
        0 <= j <= s.len(),
    ensures
        shape_product(s.insert(j, 1i64)) == shape_product(s),
        valid_dims(s) ==> valid_dims(s.insert(j, 1i64)),
        strides_fit(s) ==> strides_fit(s.insert(j, 1i64)),
{
    let t = s.insert(j, 1i64);
    lemma_product_insert_one(s, j);
    assert forall|k: int| 0 <= k <= t.len() implies #[trigger] suffix_product(t, k)
        == if k <= j {
        suffix_product(s, k)
    } else {
        suffix_product(s, k - 1)
    } by {
        if k <= j {
            assert(t.skip(k) =~= s.skip(k).insert(j - k, 1i64));
            lemma_product_insert_one(s.skip(k), j - k);
        } else {
            assert(t.skip(k) =~= s.skip(k - 1));
        }
    }
}

pub proof fn lemma_product_push(s: Seq<i64>, x: i64)
    ensures
        shape_product(s.push(x)) == shape_product(s) * x,
{
    assert(s.push(x) =~= s + seq![x]);
    lemma_product_append(s, seq![x]);
    assert(seq![x].len() == 1);
    assert(seq![x][0] == x);
    assert(seq![x].drop_first() =~= Seq::<i64>::empty());
    assert(shape_product(seq![x]) == seq![x][0] * shape_product(Seq::<i64>::empty()));
    assert(x * 1 == x) by (nonlinear_arith);
    assert(shape_product(seq![x]) == x);
}

/// The shape that results from collapsing dimensions `a..=b` into one.
pub open spec fn flatten_shape(s: Seq<i64>, a: int, b: int) -> Seq<i64> {
    s.subrange(0, a) + seq![shape_product(s.subrange(a, b + 1)) as i64] + s.subrange(
        b + 1,
        s.len() as int,
    )
}

/// Collapsing a dimension range of a representable shape gives a
/// representable shape with the same element count, provided the collapsed
/// product itself fits in an `i64`.
pub proof fn lemma_flatten_layout(s: Seq<i64>, a: int, b: int)
    requires
        layout_ok(s),
        0 <= a <= b < s.len(),
        shape_product(s.subrange(a, b + 1)) <= i64::MAX,
    ensures
        layout_ok(flatten_shape(s, a, b)),
        shape_product(flatten_shape(s, a, b)) == shape_product(s),
        flatten_shape(s, a, b).len() == s.len() - (b - a),
{
    let pre = s.subrange(0, a);
    let midseq = s.subrange(a, b + 1);
    let post = s.subrange(b + 1, s.len() as int);
    let mid = shape_product(midseq);
    assert(valid_dims(midseq));
    lemma_product_nonneg(midseq);
    let m = seq![mid as i64];
    let t = flatten_shape(s, a, b);
    assert(t == pre + m + post);
    assert(s =~= pre + midseq + post);

    assert(m.len() == 1);
    assert(m[0] == mid as i64);
    assert(m.drop_first() =~= Seq::<i64>::empty());
    assert(shape_product(m) == m[0] * shape_product(Seq::<i64>::empty()));
    assert((mid as i64) * 1 == mid) by (nonlinear_arith)
        requires
            0 <= mid <= i64::MAX,
    ;
    assert(shape_product(m) == mid);
    lemma_product_append(pre + m, post);
    lemma_product_append(pre, m);
    lemma_product_append(pre + midseq, post);
    lemma_product_append(pre, midseq);
    assert(shape_product(t) == (shape_product(pre) * mid) * shape_product(post));
    assert(shape_product(s) == (shape_product(pre) * mid) * shape_product(post));

    assert forall|i: int| 0 <= i < t.len() implies t[i] >= 0 by {
        if i < a {
            assert(t[i] == s[i]);
        } else if i == a {
        } else {
            assert(t[i] == s[i + (b - a)]);
        }
    }

    assert forall|k: int| 0 <= k <= t.len() implies #[trigger] suffix_product(t, k)
        <= i64::MAX by {
        if k <= a {
            let tk = t.skip(k);
            let sk = s.skip(k);
            assert(tk =~= s.subrange(k, a) + m + post);
            assert(sk =~= s.subrange(k, a) + midseq + post);
            lemma_product_append(s.subrange(k, a) + m, post);
            lemma_product_append(s.subrange(k, a), m);
            lemma_product_append(s.subrange(k, a) + midseq, post);
            lemma_product_append(s.subrange(k, a), midseq);
            assert(shape_product(tk) == (shape_product(s.subrange(k, a)) * mid) * shape_product(
                post,
            ));
            assert(shape_product(sk) == (shape_product(s.subrange(k, a)) * mid) * shape_product(
                post,
            ));
            assert(suffix_product(s, k) <= i64::MAX);
        } else {
            assert(t.skip(k) =~= s.skip(k + (b - a)));
            assert(suffix_product(s, k + (b - a)) <= i64::MAX);
        }
    }
}

/// The shape with every dimension of size 1 removed.
pub open spec fn squeeze_dims(s: Seq<i64>) -> Seq<i64>
    decreases s.len(),
{
    if s.len() == 0 {
        Seq::empty()
    } else if s[0] == 1 {
        squeeze_dims(s.drop_first())
    } else {
        seq![s[0]] + squeeze_dims(s.drop_first())
    }
}

/// The strides of the positions kept by `squeeze_dims`.
pub open spec fn squeeze_strides(s: Seq<i64>, st: Seq<i64>) -> Seq<i64>
    decreases s.len(),
{
    if s.len() == 0 || st.len() == 0 {
        Seq::empty()
    } else if s[0] == 1 {
        squeeze_strides(s.drop_first(), st.drop_first())
    } else {
        seq![st[0]] + squeeze_strides(s.drop_first(), st.drop_first())
    }
}

pub proof fn lemma_squeeze_push(s: Seq<i64>, x: i64)
    ensures
        squeeze_dims(s.push(x)) == squeeze_dims(s) + (if x == 1 {
            Seq::<i64>::empty()
        } else {
            seq![x]
        }),
    decreases s.len(),
{
    let tail: Seq<i64> = if x == 1 {
        Seq::empty()
    } else {
        seq![x]
    };
    if s.len() == 0 {
        assert(s.push(x).len() == 1);
        assert(s.push(x)[0] == x);
        assert(s.push(x).drop_first() =~= Seq::<i64>::empty());
        assert(squeeze_dims(Seq::<i64>::empty()) =~= Seq::<i64>::empty());
        assert(squeeze_dims(s) =~= Seq::<i64>::empty());
        assert(squeeze_dims(s.push(x)) =~= tail);
        assert(squeeze_dims(s) + tail =~= tail);
    } else {
        assert(s.push(x).drop_first() =~= s.drop_first().push(x));
        lemma_squeeze_push(s.drop_first(), x);
        if s[0] == 1 {
        } else {
            assert(seq![s[0]] + (squeeze_dims(s.drop_first()) + tail) =~= (seq![s[0]]
                + squeeze_dims(s.drop_first())) + tail);
        }
    }
}

pub proof fn lemma_squeeze_strides_push(s: Seq<i64>, st: Seq<i64>, x: i64, y: i64)
    requires
        s.len() == st.len(),
    ensures
        squeeze_strides(s.push(x), st.push(y)) == squeeze_strides(s, st) + (if x == 1 {
            Seq::<i64>::empty()
        } else {
            seq![y]
        }),
    decreases s.len(),
{
    let tail: Seq<i64> = if x == 1 {
        Seq::empty()
    } else {
        seq![y]
    };
    if s.len() == 0 {
        assert(s.push(x).len() == 1);
        assert(st.push(y).len() == 1);
        assert(s.push(x)[0] == x);
        assert(st.push(y)[0] == y);
        assert(s.push(x).drop_first() =~= Seq::<i64>::empty());
        assert(st.push(y).drop_first() =~= Seq::<i64>::empty());
        assert(squeeze_strides(Seq::<i64>::empty(), Seq::<i64>::empty()) =~= Seq::<i64>::empty());
        assert(squeeze_strides(s, st) =~= Seq::<i64>::empty());
        assert(squeeze_strides(s.push(x), st.push(y)) =~= tail);
        assert(squeeze_strides(s, st) + tail =~= tail);
    } else {
        assert(s.push(x).drop_first() =~= s.drop_first().push(x));
        assert(st.push(y).drop_first() =~= st.drop_first().push(y));
        lemma_squeeze_strides_push(s.drop_first(), st.drop_first(), x, y);
        if s[0] == 1 {
        } else {
            assert(seq![st[0]] + (squeeze_strides(s.drop_first(), st.drop_first()) + tail)
                =~= (seq![st[0]] + squeeze_strides(s.drop_first(), st.drop_first())) + tail);
        }
    }
}

/// Squeezing removes only dimensions of size 1, so it keeps the element
/// count, the validity of the dimensions and the representability of the
/// suffix products.
pub proof fn lemma_squeeze_layout(s: Seq<i64>)
    requires
        valid_dims(s),
        strides_fit(s),
    ensures
        shape_product(squeeze_dims(s)) == shape_product(s),
        valid_dims(squeeze_dims(s)),
        strides_fit(squeeze_dims(s)),
        squeeze_dims(s).len() <= s.len(),
    decreases s.len(),
{
    lemma_suffix_end(s);
    if s.len() == 0 {
        assert(squeeze_dims(s) =~= Seq::<i64>::empty());
        assert(strides_fit(squeeze_dims(s))) by {
            assert(forall|k: int|
                0 <= k <= 0 ==> #[trigger] suffix_product(Seq::<i64>::empty(), k) == 1) by {
                assert(Seq::<i64>::empty().skip(0) =~= Seq::<i64>::empty());
            }
        }
    } else {
        let rest = s.drop_first();
        assert(valid_dims(rest));
        assert(strides_fit(rest)) by {
            assert forall|k: int| 0 <= k <= rest.len() implies #[trigger] suffix_product(rest, k)
                <= i64::MAX by {
                assert(rest.skip(k) =~= s.skip(k + 1));
                assert(suffix_product(s, k + 1) <= i64::MAX);
            }
        }
        lemma_squeeze_layout(rest);
        let sq = squeeze_dims(s);
        if s[0] == 1 {
            assert(shape_product(s) == 1 * shape_product(rest));
            assert(1 * shape_product(rest) == shape_product(rest)) by (nonlinear_arith);
        } else {
            assert(sq == seq![s[0]] + squeeze_dims(rest));
            assert(sq.drop_first() =~= squeeze_dims(rest));
            assert(sq[0] == s[0]);
            assert(shape_product(sq) == s[0] * shape_product(squeeze_dims(rest)));
            assert(s.skip(0) =~= s);
            assert(suffix_product(s, 0) == shape_product(s));
            assert forall|k: int| 0 <= k <= sq.len() implies #[trigger] suffix_product(sq, k)
                <= i64::MAX by {
                if k == 0 {
                    assert(sq.skip(0) =~= sq);
                } else {
                    assert(sq.skip(k) =~= squeeze_dims(rest).skip(k - 1));
                    assert(suffix_product(squeeze_dims(rest), k - 1) <= i64::MAX);
                }
            }
        }
    }
}

/// Computes the contiguous strides and the element count of `shape`, or
/// `None` when a dimension is negative or a suffix product overflows `i64`.
pub fn compute_layout(shape: &Vec<i64>) -> (r: Option<(Vec<i64>, i64)>)
    ensures
        r is Some <==> valid_dims(shape@) && strides_fit(shape@),
        r matches Some(p) ==> p.0@ == contig_strides(shape@) && p.1 == shape_product(shape@),
{
    let n = shape.len();
    let mut strides: Vec<i64> = Vec::new();
    let mut j: usize = 0;
    while j < n
        invariant
            strides@.len() == j,
            j <= n,
        decreases n - j,
    {
        strides.push(1);
        j += 1;
    }
    let mut acc: i64 = 1;
    let mut i: usize = n;
    proof {
        lemma_suffix_end(shape@);
    }
    while i > 0
        invariant
            n == shape@.len(),
            strides@.len() == n,
            0 <= i <= n,
            acc == suffix_product(shape@, i as int),
            valid_dims(shape@.skip(i as int)),
            forall|k: int| i <= k <= n ==> #[trigger] suffix_product(shape@, k) <= i64::MAX,
            forall|k: int| i <= k <= n ==> #[trigger] suffix_product(shape@, k) >= 0,
            forall|k: int|
                i <= k < n ==> #[trigger] strides@[k] == suffix_product(shape@, k + 1) as i64,
        decreases i,
    {
        i -= 1;
        let d = shape[i];
        if d < 0 {
            proof {
                assert(!valid_dims(shape@));
            }
            return None;
        }
        strides.set(i, acc);
        proof {
            lemma_suffix_step(shape@, i as int);
        }
        match d.checked_mul(acc) {
            Some(next) => {
                proof {
                    assert(d * acc >= 0) by (nonlinear_arith)
                        requires
                            d >= 0,
                            acc >= 0,
                    ;
                    assert forall|j: int|
                        0 <= j < shape@.skip(i as int).len() implies shape@.skip(
                        i as int,
                    )[j] >= 0 by {
                        if j > 0 {
                            assert(shape@.skip(i as int)[j] == shape@.skip(i + 1)[j - 1]);
                        }
                    }
                    assert(valid_dims(shape@.skip(i as int)));
                }
                acc = next;
            },
            None => {
                proof {
                    assert(suffix_product(shape@, i as int) == d * suffix_product(shape@, i + 1));
                    assert(d * acc < i64::MIN || d * acc > i64::MAX);
                    assert(d >= 0 && acc >= 0);
                    assert(d * acc >= 0) by (nonlinear_arith)
                        requires
                            d >= 0,
                            acc >= 0,
                    ;
                    assert(suffix_product(shape@, i as int) > i64::MAX);
                    assert(!strides_fit(shape@));
                }
                return None;
            },
        }
    }
    proof {
        assert(shape@.skip(0) =~= shape@);
        assert(valid_dims(shape@));
        assert(strides@ =~= contig_strides(shape@));
    }
    Some((strides, acc))
}

/// The empty shape is the scalar shape: it holds exactly one element.
pub proof fn lemma_scalar_shape_one_element()
    ensures
        shape_product(Seq::<i64>::empty()) == 1,
{
}

/// For a contiguous layout, the stride of every dimension is the product
/// of all dimensions to its right.
pub proof fn lemma_contiguous_strides_are_suffix_products(s: Seq<i64>)
    requires
        valid_dims(s),
        strides_fit(s),
    ensures
        forall|i: int|
            0 <= i < s.len() ==> #[trigger] contig_strides(s)[i] == shape_product(
                s.subrange(i + 1, s.len() as int),
            ),
{
    assert forall|i: int| 0 <= i < s.len() implies #[trigger] contig_strides(s)[i]
        == shape_product(s.subrange(i + 1, s.len() as int)) by {
        assert(s.subrange(i + 1, s.len() as int) =~= s.skip(i + 1));
        lemma_suffix_nonneg(s, i + 1);
        assert(suffix_product(s, i + 1) <= i64::MAX);
    }
}

/// For a tensor with at least one element and a proposed shape with
/// non-negative dimensions and a representable dimension count, a reshape
/// succeeds exactly when the proposed shape holds the same number of
/// elements: the representability conditions follow from the element-count
/// match.
pub proof fn lemma_reshape_succeeds_iff_count_matches(s: Seq<i64>, numel: i64)
    requires
        valid_dims(s),
        s.len() <= i64::MAX,
        numel >= 1,
    ensures
        shape_product(s) == numel ==> layout_ok(s),
{
    if shape_product(s) == numel {
        lemma_fits_of_positive(s);
    }
}

} // verus!
