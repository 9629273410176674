use vstd::prelude::*;
use std::rc::Rc;
use crate::data::dataset::Dataset;
use crate::tensor::Tensor;
use crate::tensor::options::Options;
use crate::tensor::tensor_impl::TensorImpl;
use rand::seq::SliceRandom;

verus! {

/// Relies on rand's `SliceRandom::shuffle` with `thread_rng`: the slice is
/// permuted in place, so it keeps its length, the multiset of its values,
/// and in particular every resulting value was already present before.
#[verifier::external_body]
fn shuffle_indices(v: &mut Vec<usize>)
    ensures
        final(v)@.len() == old(v)@.len(),
        final(v)@.to_multiset() == old(v)@.to_multiset(),
        forall|j: int| 0 <= j < final(v)@.len() ==> old(v)@.contains(#[trigger] final(v)@[j]),
{
    v.shuffle(&mut rand::thread_rng());
}


/// The index (into the dataset) of the first existing sample among batch
/// positions `lo..hi` of the index order, if any.
pub open spec fn first_defined<D: Dataset>(d: D, idxs: Seq<usize>, lo: int, hi: int) -> Option<int>
    decreases hi - lo,
{
    if lo >= hi {
        None
    } else {
        match first_defined(d, idxs, lo, hi - 1) {
            Some(j) => Some(j),
            None => if d.spec_item_defined(idxs[hi - 1] as int) {
                Some(idxs[hi - 1] as int)
            } else {
                None
            },
        }
    }
}

/// The Float32 values a batch gathers from the feature tensors of batch
/// positions `lo..hi`: per position, the sample's feature data when it
/// exists and is readable, nothing otherwise.
pub open spec fn stacked_features<D: Dataset>(d: D, idxs: Seq<usize>, lo: int, hi: int) -> Seq<u32>
    decreases hi - lo,
{
    if lo >= hi {
        Seq::empty()
    } else {
        stacked_features(d, idxs, lo, hi - 1) + (if d.spec_item_defined(idxs[hi - 1] as int) {
            if d.spec_feature_readable(idxs[hi - 1] as int) {
                d.spec_feature_data(idxs[hi - 1] as int)
            } else {
                Seq::empty()
            }
        } else {
            Seq::empty()
        })
    }
}

/// The Float32 values a batch gathers from the target tensors of batch
/// positions `lo..hi`.
pub open spec fn stacked_targets<D: Dataset>(d: D, idxs: Seq<usize>, lo: int, hi: int) -> Seq<u32>
    decreases hi - lo,
{
    if lo >= hi {
        Seq::empty()
    } else {
        stacked_targets(d, idxs, lo, hi - 1) + (if d.spec_item_defined(idxs[hi - 1] as int) {
            if d.spec_target_readable(idxs[hi - 1] as int) {
                d.spec_target_data(idxs[hi - 1] as int)
            } else {
                Seq::empty()
            }
        } else {
            Seq::empty()
        })
    }
}

/// Iterates a dataset in batches: an index order (optionally shuffled), a
/// batch size, and a cursor over the batches.
pub struct DataLoader<D: Dataset> {
    dataset: D,
    batch_size: usize,
    shuffle: bool,
    drop_last: bool,
    indices: Vec<usize>,
    current_batch: usize,
}

/// The number of batches: full batches only when the trailing partial
/// batch is dropped, otherwise the count rounded upward.
pub open spec fn spec_num_batches(len: int, batch_size: int, drop_last: bool) -> int {
    if drop_last {
        len / batch_size
    } else if len % batch_size == 0 {
        len / batch_size
    } else {
        len / batch_size + 1
    }
}

impl<D: Dataset> DataLoader<D> {
    pub closed spec fn spec_dataset(&self) -> D {
        self.dataset
    }

    pub closed spec fn spec_batch_size(&self) -> usize {
        self.batch_size
    }

    pub closed spec fn spec_drop_last(&self) -> bool {
        self.drop_last
    }

    pub closed spec fn spec_indices(&self) -> Seq<usize> {
        self.indices@
    }

    pub closed spec fn spec_current_batch(&self) -> usize {
        self.current_batch
    }

    pub open spec fn wf(&self) -> bool {
        &&& self.spec_dataset().inv()
        &&& self.spec_batch_size() >= 1
        &&& self.spec_indices().len() == self.spec_dataset().spec_len()
        &&& forall|j: int|
            0 <= j < self.spec_indices().len() ==> (#[trigger] self.spec_indices()[j])
                < self.spec_dataset().spec_len()
    }

    /// Wraps a dataset with a batch size, visiting samples in their
    /// natural order. A batch size of zero is rejected by every consumer
    /// of the loader, so it is excluded here.
    pub fn new(dataset: D, batch_size: usize) -> (r: Self)
        requires
            dataset.inv(),
            batch_size >= 1,
        ensures
            r.wf(),
            r.spec_dataset() == dataset,
            r.spec_batch_size() == batch_size,
            !r.spec_drop_last(),
            r.spec_current_batch() == 0,
            r.spec_indices() == Seq::new(dataset.spec_len() as nat, |i: int| i as usize),
    {
        let len = dataset.len();
        let mut indices: Vec<usize> = Vec::new();
        let mut i: usize = 0;
        while i < len
            invariant
                i <= len,
                indices@ =~= Seq::new(i as nat, |j: int| j as usize),
            decreases len - i,
        {
            indices.push(i);
            i += 1;
        }
        DataLoader { dataset, batch_size, shuffle: false, drop_last: false, indices, current_batch: 0 }
    }

    /// Sets the shuffle flag, permuting the index order at once when it is
    /// switched on.
    pub fn shuffle(self, shuffle: bool) -> (r: Self)
        requires
            self.wf(),
        ensures
            r.wf(),
            r.spec_dataset() == self.spec_dataset(),
            r.spec_batch_size() == self.spec_batch_size(),
            r.spec_drop_last() == self.spec_drop_last(),
            r.spec_current_batch() == self.spec_current_batch(),
            r.spec_indices().to_multiset() == self.spec_indices().to_multiset(),
    {
        let mut r = self;
        r.shuffle = shuffle;
        if shuffle {
            let ghost before = r.indices@;
            shuffle_indices(&mut r.indices);
            proof {
                assert forall|j: int|
                    0 <= j < r.indices@.len() implies (#[trigger] r.indices@[j])
                    < r.dataset.spec_len() by {
                    assert(before.contains(r.indices@[j]));
                    let w = choose|w: int| 0 <= w < before.len() && before[w] == r.indices@[j];
                    assert(before[w] < r.dataset.spec_len());
                }
            }
        }
        r
    }

    /// Sets whether a trailing partial batch is dropped.
    pub fn drop_last(self, drop_last: bool) -> (r: Self)
        ensures
            r.spec_dataset() == self.spec_dataset(),
            r.spec_batch_size() == self.spec_batch_size(),
            r.spec_drop_last() == drop_last,
            r.spec_indices() == self.spec_indices(),
            r.spec_current_batch() == self.spec_current_batch(),
            self.wf() ==> r.wf(),
    {
        let mut r = self;
        r.drop_last = drop_last;
        r
    }

    /// The number of batches this loader will yield.
    pub fn len(&self) -> (r: usize)
        requires
            self.wf(),
        ensures
            r == spec_num_batches(
                self.spec_dataset().spec_len() as int,
                self.spec_batch_size() as int,
                self.spec_drop_last(),
            ),
    {
        let n = self.dataset.len();
        if self.drop_last {
            n / self.batch_size
        } else {
            if n % self.batch_size == 0 {
                n / self.batch_size
            } else {
                proof {
                    let q = n as int / self.batch_size as int;
                    assert(q < n) by (nonlinear_arith)
                        requires
                            q == n as int / self.batch_size as int,
                            self.batch_size >= 1,
                            n as int % self.batch_size as int != 0,
                            n >= 0,
                    ;
                }
                n / self.batch_size + 1
            }
        }
    }

    pub fn is_empty(&self) -> (r: bool)
        requires
            self.wf(),
        ensures
            r == (spec_num_batches(
                self.spec_dataset().spec_len() as int,
                self.spec_batch_size() as int,
                self.spec_drop_last(),
            ) == 0),
    {
        self.len() == 0
    }

    /// Rewinds the cursor to the first batch, reshuffling the index order
    /// when shuffling is on.
    pub fn reset(&mut self)
        requires
            old(self).wf(),
        ensures
            final(self).wf(),
            final(self).spec_current_batch() == 0,
            final(self).spec_dataset() == old(self).spec_dataset(),
            final(self).spec_batch_size() == old(self).spec_batch_size(),
            final(self).spec_drop_last() == old(self).spec_drop_last(),
            final(self).spec_indices().to_multiset() == old(self).spec_indices().to_multiset(),
    {
        self.current_batch = 0;
        if self.shuffle {
            let ghost before = self.indices@;
            shuffle_indices(&mut self.indices);
            proof {
                assert forall|j: int|
                    0 <= j < self.indices@.len() implies (#[trigger] self.indices@[j])
                    < self.dataset.spec_len() by {
                    assert(before.contains(self.indices@[j]));
                    let w = choose|w: int| 0 <= w < before.len() && before[w] == self.indices@[j];
                    assert(before[w] < self.dataset.spec_len());
                }
            }
        }
    }

    /// Assembles and yields the next batch: the features and targets of
    /// the batch's samples, stacked along a fresh leading batch dimension.
    /// Yields nothing once the cursor has passed the last batch (leaving
    /// the cursor in place), and advances the cursor by one on success.
    pub fn next_batch(&mut self) -> (r: Option<(Tensor, Tensor)>)
        requires
            old(self).wf(),
        ensures
            final(self).wf(),
            final(self).spec_dataset() == old(self).spec_dataset(),
            final(self).spec_batch_size() == old(self).spec_batch_size(),
            final(self).spec_drop_last() == old(self).spec_drop_last(),
            final(self).spec_indices() == old(self).spec_indices(),
            old(self).spec_current_batch() >= spec_num_batches(
                old(self).spec_dataset().spec_len() as int,
                old(self).spec_batch_size() as int,
                old(self).spec_drop_last(),
            ) ==> r is None,
            r is Some ==> final(self).spec_current_batch() == old(self).spec_current_batch() + 1,
            r is None ==> final(self).spec_current_batch() == old(self).spec_current_batch(),
            r matches Some(p) ==> p.0.wf() && p.1.wf() && p.0.impl_ is Some && p.1.impl_ is Some,
            r matches Some(p) ==> ({
                let d = old(self).spec_dataset();
                let idxs = old(self).spec_indices();
                let n = d.spec_len() as int;
                let lo = old(self).spec_current_batch() * old(self).spec_batch_size();
                let hi = if n - lo < old(self).spec_batch_size() {
                    n
                } else {
                    lo + old(self).spec_batch_size()
                };
                let c = hi - lo;
                &&& p.0.spec_shape() == seq![c as i64] + (match first_defined(d, idxs, lo, hi) {
                    Some(j) => d.spec_feature_shape(j),
                    None => Seq::<i64>::empty(),
                })
                &&& p.0.spec_readable_f32()
                &&& p.0.spec_f32_data() == stacked_features(d, idxs, lo, hi)
                &&& p.1.spec_shape() == seq![c as i64] + (match first_defined(d, idxs, lo, hi) {
                    Some(j) => if d.spec_target_shape(j).len() > 0 {
                        d.spec_target_shape(j)
                    } else {
                        Seq::<i64>::empty()
                    },
                    None => Seq::<i64>::empty(),
                })
                &&& p.1.spec_readable_f32()
                &&& p.1.spec_f32_data() == stacked_targets(d, idxs, lo, hi)
            }),
    {
        let total = self.len();
        if self.current_batch >= total {
            return None;
        }
        let ds_len = self.dataset.len();
        let start_idx = match self.current_batch.checked_mul(self.batch_size) {
            None => {
                return None;
            },
            Some(v) => v,
        };
        if start_idx >= ds_len {
            return None;
        }
        let end_idx = if ds_len - start_idx < self.batch_size {
            ds_len
        } else {
            start_idx + self.batch_size
        };
        if self.drop_last && end_idx - start_idx < self.batch_size {
            return None;
        }
        let mut batch_features: Vec<u32> = Vec::new();
        let mut batch_targets: Vec<u32> = Vec::new();
        let mut feature_shape: Option<Vec<i64>> = None;
        let mut target_shape: Option<Vec<i64>> = None;
        let ghost d = self.spec_dataset();
        let ghost idxs = self.spec_indices();
        let mut i: usize = start_idx;
        proof {
            assert(batch_features@ =~= stacked_features(d, idxs, start_idx as int, i as int));
            assert(batch_targets@ =~= stacked_targets(d, idxs, start_idx as int, i as int));
        }
        while i < end_idx
            invariant
                old(self).wf(),
                *self == *old(self),
                d == self.spec_dataset(),
                idxs == self.spec_indices(),
                start_idx <= i <= end_idx,
                end_idx <= self.spec_indices().len(),
                batch_features@ == stacked_features(d, idxs, start_idx as int, i as int),
                batch_targets@ == stacked_targets(d, idxs, start_idx as int, i as int),
                (match feature_shape {
                    Some(v) => first_defined(d, idxs, start_idx as int, i as int) matches Some(j)
                        && v@ == d.spec_feature_shape(j),
                    None => first_defined(d, idxs, start_idx as int, i as int) is None,
                }),
                (match target_shape {
                    Some(v) => first_defined(d, idxs, start_idx as int, i as int) matches Some(j)
                        && v@ == d.spec_target_shape(j),
                    None => first_defined(d, idxs, start_idx as int, i as int) is None,
                }),
            decreases end_idx - i,
        {
            let dataset_idx = self.indices[i];
            let ghost di = dataset_idx as int;
            match self.dataset.get_item(dataset_idx) {
                Some(item) => {
                    let (features, targets) = item;
                    if feature_shape.is_none() {
                        feature_shape = Some(features.shape());
                    }
                    if target_shape.is_none() {
                        target_shape = Some(targets.shape());
                    }
                    let mut f = features.to_list::<u32>();
                    proof {
                        match &features.impl_ {
                            Some(rc) => {
                                if features.spec_readable_f32() {
                                    crate::tensor::tensor::lemma_f32_list(f@, rc);
                                } else {
                                    assert(f@ =~= Seq::<u32>::empty());
                                }
                            },
                            None => {
                                assert(f@ =~= Seq::<u32>::empty());
                            },
                        }
                    }
                    batch_features.append(&mut f);
                    let mut t = targets.to_list::<u32>();
                    proof {
                        match &targets.impl_ {
                            Some(rc) => {
                                if targets.spec_readable_f32() {
                                    crate::tensor::tensor::lemma_f32_list(t@, rc);
                                } else {
                                    assert(t@ =~= Seq::<u32>::empty());
                                }
                            },
                            None => {
                                assert(t@ =~= Seq::<u32>::empty());
                            },
                        }
                    }
                    batch_targets.append(&mut t);
                },
                None => {},
            }
            proof {
                assert(stacked_features(d, idxs, start_idx as int, i + 1) == stacked_features(
                    d,
                    idxs,
                    start_idx as int,
                    i as int,
                ) + (if d.spec_item_defined(di) {
                    if d.spec_feature_readable(di) {
                        d.spec_feature_data(di)
                    } else {
                        Seq::<u32>::empty()
                    }
                } else {
                    Seq::<u32>::empty()
                }));
                assert(batch_features@ =~= stacked_features(d, idxs, start_idx as int, i + 1));
                assert(stacked_targets(d, idxs, start_idx as int, i + 1) == stacked_targets(
                    d,
                    idxs,
                    start_idx as int,
                    i as int,
                ) + (if d.spec_item_defined(di) {
                    if d.spec_target_readable(di) {
                        d.spec_target_data(di)
                    } else {
                        Seq::<u32>::empty()
                    }
                } else {
                    Seq::<u32>::empty()
                }));
                assert(batch_targets@ =~= stacked_targets(d, idxs, start_idx as int, i + 1));
            }
            i += 1;
        }
        if batch_features.len() == 0 || batch_targets.len() == 0 {
            return None;
        }
        let actual_batch_size = end_idx - start_idx;
        if actual_batch_size as u64 > 0x7fff_ffff_ffff_ffffu64 {
            return None;
        }
        let mut batched_feature_shape: Vec<i64> = Vec::new();
        batched_feature_shape.push(actual_batch_size as i64);
        match &feature_shape {
            Some(fs) => {
                let mut j: usize = 0;
                while j < fs.len()
                    invariant
                        j <= fs@.len(),
                        batched_feature_shape@ == seq![actual_batch_size as i64] + fs@.take(
                            j as int,
                        ),
                    decreases fs@.len() - j,
                {
                    batched_feature_shape.push(fs[j]);
                    proof {
                        assert(fs@.take(j + 1) =~= fs@.take(j as int).push(fs@[j as int]));
                        assert(batched_feature_shape@ =~= seq![actual_batch_size as i64]
                            + fs@.take(j + 1));
                    }
                    j += 1;
                }
                proof {
                    assert(fs@.take(fs@.len() as int) =~= fs@);
                }
            },
            None => {
                proof {
                    assert(batched_feature_shape@ =~= seq![actual_batch_size as i64]
                        + Seq::<i64>::empty());
                }
            },
        }
        let mut batched_target_shape: Vec<i64> = Vec::new();
        batched_target_shape.push(actual_batch_size as i64);
        match &target_shape {
            Some(ts) => {
                if ts.len() > 0 {
                    let mut j: usize = 0;
                    while j < ts.len()
                        invariant
                            j <= ts@.len(),
                            batched_target_shape@ == seq![actual_batch_size as i64] + ts@.take(
                                j as int,
                            ),
                        decreases ts@.len() - j,
                    {
                        batched_target_shape.push(ts[j]);
                        proof {
                            assert(ts@.take(j + 1) =~= ts@.take(j as int).push(ts@[j as int]));
                            assert(batched_target_shape@ =~= seq![actual_batch_size as i64]
                                + ts@.take(j + 1));
                        }
                        j += 1;
                    }
                    proof {
                        assert(ts@.take(ts@.len() as int) =~= ts@);
                    }
                } else {
                    proof {
                        assert(batched_target_shape@ =~= seq![actual_batch_size as i64]
                            + Seq::<i64>::empty());
                    }
                }
            },
            None => {
                proof {
                    assert(batched_target_shape@ =~= seq![actual_batch_size as i64]
                        + Seq::<i64>::empty());
                }
            },
        }
        let options = Options::default();
        let batched_features = match TensorImpl::new_from_data(
            batch_features.as_slice(),
            batched_feature_shape.as_slice(),
            options,
        ) {
            Err(_) => {
                return None;
            },
            Ok(impl_) => {
                proof {
                    crate::tensor::tensor::lemma_f32_data_of_elems(&impl_, batch_features@);
                }
                Tensor { impl_: Some(Rc::new(impl_)) }
            },
        };
        let options = Options::default();
        let batched_targets = match TensorImpl::new_from_data(
            batch_targets.as_slice(),
            batched_target_shape.as_slice(),
            options,
        ) {
            Err(_) => {
                return None;
            },
            Ok(impl_) => {
                proof {
                    crate::tensor::tensor::lemma_f32_data_of_elems(&impl_, batch_targets@);
                }
                Tensor { impl_: Some(Rc::new(impl_)) }
            },
        };
        self.current_batch = self.current_batch + 1;
        Some((batched_features, batched_targets))
    }
}

} // verus!
