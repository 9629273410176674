use vstd::prelude::*;
use vstd::string::StringSliceAdditionalSpecFns;
use vstd::bytes::{spec_u32_from_le_bytes, spec_u32_to_le_bytes, u32_to_le_bytes};
use vstd::utf8::{decode_utf8, encode_utf8, valid_utf8};
use crate::tensor::Tensor;
use crate::tensor::dtype::{Element, bytes_of_elems};
use crate::tensor::options::Options;
use crate::tensor::tensor_impl::TensorImpl;

verus! {

/// Compares two string slices by their UTF-8 bytes; equal bytes decode to
/// equal character sequences.
pub fn str_eq(a: &str, b: &str) -> (r: bool)
    ensures
        r == (a@ == b@),
{
    let ab = a.as_bytes();
    let bb = b.as_bytes();
    if ab.len() != bb.len() {
        proof {
            if a@ == b@ {
                assert(a.spec_bytes() == b.spec_bytes());
            }
        }
        return false;
    }
    let n = ab.len();
    let mut i: usize = 0;
    while i < n
        invariant
            n == ab@.len(),
            n == bb@.len(),
            ab@ == a.spec_bytes(),
            bb@ == b.spec_bytes(),
            i <= n,
            forall|j: int| 0 <= j < i ==> ab@[j] == bb@[j],
        decreases n - i,
    {
        if ab[i] != bb[i] {
            proof {
                if a@ == b@ {
                    assert(a.spec_bytes() == b.spec_bytes());
                }
            }
            return false;
        }
        i += 1;
    }
    proof {
        assert(ab@ =~= bb@);
        vstd::utf8::encode_utf8_decode_utf8(a@);
        vstd::utf8::encode_utf8_decode_utf8(b@);
        assert(vstd::utf8::decode_utf8(a.spec_bytes()) == a@);
        assert(vstd::utf8::decode_utf8(b.spec_bytes()) == b@);
    }
    true
}

/// A named collection of parameter tensors plus free-form string metadata,
/// as persisted by the checkpoint format. Both maps are association lists
/// with unique keys; inserting an existing key replaces its value.
pub struct ModelState {
    parameters: Vec<(String, Tensor)>,
    metadata: Vec<(String, String)>,
}

/// No two entries share a key.
pub open spec fn unique_str_keys<V>(s: Seq<(String, V)>) -> bool {
    forall|i: int, j: int| 0 <= i < j < s.len() ==> (#[trigger] s[i].0)@ != (#[trigger] s[j].0)@
}

/// The association list after one map-style insertion: an existing key's
/// value is replaced in place, a new key is appended.
pub open spec fn spec_insert<V>(s: Seq<(String, V)>, key: String, value: V) -> Seq<(String, V)> {
    if exists|i: int| 0 <= i < s.len() && (#[trigger] s[i].0)@ == key@ {
        let i = choose|i: int| 0 <= i < s.len() && (#[trigger] s[i].0)@ == key@;
        s.update(i, (key, value))
    } else {
        s.push((key, value))
    }
}

/// The association list built by inserting the given entries in order.
pub open spec fn spec_insert_all<V>(s: Seq<(String, V)>) -> Seq<(String, V)>
    decreases s.len(),
{
    if s.len() == 0 {
        Seq::empty()
    } else {
        spec_insert(spec_insert_all(s.drop_last()), s.last().0, s.last().1)
    }
}

/// With unique keys, the replace-or-append behavior of the exec insertion
/// matches `spec_insert` exactly: the replaced position is unambiguous.
proof fn lemma_insert_agrees<V>(olds: Seq<(String, V)>, news: Seq<(String, V)>, key: String, value: V)
    requires
        unique_str_keys(olds),
        (exists|i: int| 0 <= i < olds.len() && (#[trigger] olds[i].0)@ == key@) ==> (exists|i: int|
            0 <= i < olds.len() && (#[trigger] olds[i].0)@ == key@ && news == olds.update(
                i,
                (key, value),
            )),
        !(exists|i: int| 0 <= i < olds.len() && (#[trigger] olds[i].0)@ == key@) ==> news
            == olds.push((key, value)),
    ensures
        news == spec_insert(olds, key, value),
{
    if exists|i: int| 0 <= i < olds.len() && (#[trigger] olds[i].0)@ == key@ {
        let i = choose|i: int|
            0 <= i < olds.len() && (#[trigger] olds[i].0)@ == key@ && news == olds.update(
                i,
                (key, value),
            );
        let j = choose|j: int| 0 <= j < olds.len() && (#[trigger] olds[j].0)@ == key@;
        if i != j {
            assert((olds[i].0)@ == (olds[j].0)@);
            assert(false);
        }
    }
}

/// On a stream whose keys are already unique, the insertion-fold is the
/// identity: loading a file that a save produced rebuilds exactly the
/// entry list that was saved, since saved states have unique keys.
pub proof fn lemma_insert_all_of_unique<V>(s: Seq<(String, V)>)
    requires
        unique_str_keys(s),
    ensures
        spec_insert_all(s) == s,
    decreases s.len(),
{
    if s.len() > 0 {
        let pre = s.drop_last();
        assert(unique_str_keys(pre)) by {
            assert forall|i: int, j: int| 0 <= i < j < pre.len() implies (#[trigger] pre[i].0)@
                != (#[trigger] pre[j].0)@ by {
                assert(pre[i] == s[i] && pre[j] == s[j]);
            }
        }
        lemma_insert_all_of_unique(pre);
        assert(!(exists|i: int| 0 <= i < pre.len() && (#[trigger] pre[i].0)@ == s.last().0@)) by {
            if exists|i: int| 0 <= i < pre.len() && (#[trigger] pre[i].0)@ == s.last().0@ {
                let i = choose|i: int| 0 <= i < pre.len() && (#[trigger] pre[i].0)@ == s.last().0@;
                assert((s[i].0)@ != (s[s.len() - 1].0)@);
            }
        }
        assert(spec_insert_all(s) == pre.push(s.last()));
        assert(pre.push(s.last()) =~= s);
    }
}


/// A wire-level entry stream that parsing must accept: every count and
/// length fits its u32 field, and every parameter entry carries an
/// allocatable shape with exactly one Float32 value per element.
pub open spec fn wire_ok(
    wm: Seq<(Seq<char>, Seq<char>)>,
    wp: Seq<(Seq<char>, Seq<i64>, Seq<u32>)>,
) -> bool {
    &&& wm.len() <= u32::MAX
    &&& wp.len() <= u32::MAX
    &&& forall|i: int|
        0 <= i < wm.len() ==> encode_utf8((#[trigger] wm[i]).0).len() <= u32::MAX && encode_utf8(
            wm[i].1,
        ).len() <= u32::MAX
    &&& forall|i: int|
        0 <= i < wp.len() ==> {
            let p = #[trigger] wp[i];
            &&& encode_utf8(p.0).len() <= u32::MAX
            &&& p.1.len() <= u32::MAX
            &&& p.2.len() <= u32::MAX
            &&& crate::tensor::shape::layout_ok(p.1)
            &&& crate::tensor::shape::shape_product(p.1) == p.2.len()
            &&& crate::tensor::shape::shape_product(p.1) >= 1
            &&& crate::tensor::shape::shape_product(p.1) * 4 <= usize::MAX
        }
}

/// The serialized metadata entries, flattened.
pub open spec fn meta_flat(wm: Seq<(Seq<char>, Seq<char>)>) -> Seq<u8> {
    wm.map_values(|kv: (Seq<char>, Seq<char>)| meta_entry_bytes(kv)).flatten()
}

/// The serialized parameter entries, flattened.
pub open spec fn param_flat(wp: Seq<(Seq<char>, Seq<i64>, Seq<u32>)>) -> Seq<u8> {
    wp.map_values(|p: (Seq<char>, Seq<i64>, Seq<u32>)| param_entry_bytes(p)).flatten()
}

/// Cuts a serialized checkpoint into its five segments.
proof fn lemma_serialized_layout(
    bytes: Seq<u8>,
    wm: Seq<(Seq<char>, Seq<char>)>,
    wp: Seq<(Seq<char>, Seq<i64>, Seq<u32>)>,
)
    requires
        bytes == serialized_bytes(wm, wp),
    ensures
        bytes.len() == 16 + meta_flat(wm).len() + param_flat(wp).len(),
        bytes.subrange(0, 8) == magic_bytes(),
        bytes.subrange(8, 12) == spec_u32_to_le_bytes(wm.len() as u32),
        bytes.subrange(12, 12 + meta_flat(wm).len() as int) == meta_flat(wm),
        bytes.subrange(
            12 + meta_flat(wm).len() as int,
            16 + meta_flat(wm).len() as int,
        ) == spec_u32_to_le_bytes(wp.len() as u32),
        bytes.subrange(16 + meta_flat(wm).len() as int, bytes.len() as int) == param_flat(wp),
{
    vstd::bytes::lemma_auto_spec_u32_to_from_le_bytes();
    let m = meta_flat(wm).len() as int;
    assert(bytes.subrange(0, 8) =~= magic_bytes());
    assert(bytes.subrange(8, 12) =~= spec_u32_to_le_bytes(wm.len() as u32));
    assert(bytes.subrange(12, 12 + m) =~= meta_flat(wm));
    assert(bytes.subrange(12 + m, 16 + m) =~= spec_u32_to_le_bytes(wp.len() as u32));
    assert(bytes.subrange(16 + m, bytes.len() as int) =~= param_flat(wp));
}

/// With the first `k` entries already consumed, the next metadata entry's
/// two string blocks sit exactly at the cursor.
proof fn lemma_meta_alignment(
    bytes: Seq<u8>,
    wm: Seq<(Seq<char>, Seq<char>)>,
    wp: Seq<(Seq<char>, Seq<i64>, Seq<u32>)>,
    k: int,
    pos: int,
)
    requires
        wire_ok(wm, wp),
        bytes == serialized_bytes(wm, wp),
        0 <= k < wm.len(),
        12 <= pos <= bytes.len(),
        bytes.subrange(12, pos) == meta_flat(wm.take(k)),
    ensures
        pos + meta_entry_bytes(wm[k]).len() <= 12 + meta_flat(wm).len(),
        str_block_at(bytes, pos, wm[k].0),
        str_block_at(bytes, pos + 4 + encode_utf8(wm[k].0).len() as int, wm[k].1),
        bytes.subrange(pos, pos + meta_entry_bytes(wm[k]).len() as int) == meta_entry_bytes(
            wm[k],
        ),
{
    lemma_serialized_layout(bytes, wm, wp);
    vstd::bytes::lemma_auto_spec_u32_to_from_le_bytes();
    assert(spec_u32_to_le_bytes(encode_utf8(wm[k].0).len() as u32).len() == 4);
    assert(spec_u32_to_le_bytes(encode_utf8(wm[k].1).len() as u32).len() == 4);
    let mapped = wm.map_values(|kv: (Seq<char>, Seq<char>)| meta_entry_bytes(kv));
    assert(wm.take(k).map_values(|kv: (Seq<char>, Seq<char>)| meta_entry_bytes(kv)) =~= mapped.take(
        k,
    ));
    crate::tensor::dtype::lemma_flatten_split(mapped, k);
    crate::tensor::dtype::lemma_flatten_head(mapped, k);
    assert(meta_flat(wm) == mapped.take(k).flatten() + (mapped[k] + mapped.skip(k + 1).flatten()));
    assert(pos - 12 == mapped.take(k).flatten().len());
    let e = meta_entry_bytes(wm[k]);
    assert(mapped[k] == e);
    assert(bytes.subrange(pos, pos + e.len() as int) =~= e);
    let l0 = encode_utf8(wm[k].0).len() as int;
    let l1 = encode_utf8(wm[k].1).len() as int;
    assert(e.len() == 8 + l0 + l1);
    assert(bytes.subrange(pos, pos + 4 + l0) =~= e.subrange(0, 4 + l0));
    assert(e.subrange(0, 4 + l0) =~= str_block(wm[k].0));
    assert(bytes.subrange(pos + 4 + l0, pos + 8 + l0 + l1) =~= e.subrange(4 + l0, 8 + l0 + l1));
    assert(e.subrange(4 + l0, 8 + l0 + l1) =~= str_block(wm[k].1));
}

/// The length in bytes of one serialized parameter entry.
pub open spec fn param_entry_len(p: (Seq<char>, Seq<i64>, Seq<u32>)) -> int {
    12 + encode_utf8(p.0).len() as int + 8 * p.1.len() as int + 4 * p.2.len() as int
}

/// The input is exactly the serialization of the well-formed wire stream
/// `(wm, wp)`.
pub open spec fn is_serialization_of(
    bytes: Seq<u8>,
    wm: Seq<(Seq<char>, Seq<char>)>,
    wp: Seq<(Seq<char>, Seq<i64>, Seq<u32>)>,
) -> bool {
    wire_ok(wm, wp) && bytes == serialized_bytes(wm, wp)
}

/// The parameter entry `wp[k]` sits at byte position `pos`: its name
/// block, dimension count, dimensions, value count and values occupy
/// consecutive ranges of the buffer.
pub open spec fn param_aligned(
    bytes: Seq<u8>,
    wp: Seq<(Seq<char>, Seq<i64>, Seq<u32>)>,
    k: int,
    pos: int,
) -> bool {
    let p = wp[k];
    let q0 = pos + 4 + encode_utf8(p.0).len() as int;
    &&& 0 <= k < wp.len()
    &&& 0 <= pos
    &&& pos + param_entry_len(p) <= bytes.len()
    &&& str_block_at(bytes, pos, p.0)
    &&& bytes.subrange(q0, q0 + 4) == spec_u32_to_le_bytes(p.1.len() as u32)
    &&& bytes.subrange(q0 + 4, q0 + 4 + 8 * p.1.len() as int) == bytes_of_elems(p.1)
    &&& bytes.subrange(q0 + 4 + 8 * p.1.len() as int, q0 + 8 + 8 * p.1.len() as int)
        == spec_u32_to_le_bytes(p.2.len() as u32)
    &&& bytes.subrange(
        q0 + 8 + 8 * p.1.len() as int,
        q0 + 8 + 8 * p.1.len() as int + 4 * p.2.len() as int,
    ) == bytes_of_elems(p.2)
}

/// Four count bytes written from `n` read back as `n`.
proof fn lemma_count_bytes(bytes: Seq<u8>, at: int, n: nat, c: u32)
    requires
        n <= u32::MAX,
        0 <= at,
        at + 4 <= bytes.len(),
        bytes.subrange(at, at + 4) == spec_u32_to_le_bytes(n as u32),
        c == spec_u32_from_le_bytes(bytes.subrange(at, at + 4)),
    ensures
        c as int == n,
{
    vstd::bytes::lemma_auto_spec_u32_to_from_le_bytes();
    assert(spec_u32_to_le_bytes(n as u32).len() == 4);
    assert(spec_u32_from_le_bytes(spec_u32_to_le_bytes(n as u32)) == n as u32);
}

/// With the first `k` parameters already consumed, the next parameter's
/// name block, dimension block and data block sit exactly at the cursor.
#[verifier::rlimit(60)]
proof fn lemma_param_alignment(
    bytes: Seq<u8>,
    wm: Seq<(Seq<char>, Seq<char>)>,
    wp: Seq<(Seq<char>, Seq<i64>, Seq<u32>)>,
    k: int,
    pos: int,
)
    requires
        wire_ok(wm, wp),
        bytes == serialized_bytes(wm, wp),
        0 <= k < wp.len(),
        16 + meta_flat(wm).len() <= pos <= bytes.len(),
        bytes.subrange(16 + meta_flat(wm).len() as int, pos) == param_flat(wp.take(k)),
    ensures
        param_entry_bytes(wp[k]).len() == param_entry_len(wp[k]),
        pos + param_entry_len(wp[k]) <= bytes.len(),
        str_block_at(bytes, pos, wp[k].0),
        param_aligned(bytes, wp, k, pos),
        ({
            let q0 = pos + 4 + encode_utf8(wp[k].0).len() as int;
            &&& bytes.subrange(q0, q0 + 4) == spec_u32_to_le_bytes(wp[k].1.len() as u32)
            &&& bytes.subrange(q0 + 4, q0 + 4 + 8 * wp[k].1.len() as int) == bytes_of_elems(
                wp[k].1,
            )
            &&& bytes.subrange(
                q0 + 4 + 8 * wp[k].1.len() as int,
                q0 + 8 + 8 * wp[k].1.len() as int,
            ) == spec_u32_to_le_bytes(wp[k].2.len() as u32)
            &&& bytes.subrange(
                q0 + 8 + 8 * wp[k].1.len() as int,
                q0 + 8 + 8 * wp[k].1.len() as int + 4 * wp[k].2.len() as int,
            ) == bytes_of_elems(wp[k].2)
        }),
{
    lemma_serialized_layout(bytes, wm, wp);
    vstd::bytes::lemma_auto_spec_u32_to_from_le_bytes();
    assert(spec_u32_to_le_bytes(encode_utf8(wp[k].0).len() as u32).len() == 4);
    assert(spec_u32_to_le_bytes(wp[k].1.len() as u32).len() == 4);
    assert(spec_u32_to_le_bytes(wp[k].2.len() as u32).len() == 4);
    let base = 16 + meta_flat(wm).len() as int;
    let mapped = wp.map_values(|p: (Seq<char>, Seq<i64>, Seq<u32>)| param_entry_bytes(p));
    assert(wp.take(k).map_values(|p: (Seq<char>, Seq<i64>, Seq<u32>)| param_entry_bytes(p))
        =~= mapped.take(k));
    crate::tensor::dtype::lemma_flatten_split(mapped, k);
    crate::tensor::dtype::lemma_flatten_head(mapped, k);
    assert(param_flat(wp) == mapped.take(k).flatten() + (mapped[k] + mapped.skip(
        k + 1,
    ).flatten()));
    assert(pos - base == mapped.take(k).flatten().len());
    let e = param_entry_bytes(wp[k]);
    assert(mapped[k] == e);
    let l0 = encode_utf8(wp[k].0).len() as int;
    let sl = wp[k].1.len() as int;
    let dl = wp[k].2.len() as int;
    crate::tensor::dtype::lemma_bytes_of_elems_len::<i64>(wp[k].1);
    crate::tensor::dtype::lemma_bytes_of_elems_len::<u32>(wp[k].2);
    vstd::bytes::lemma_auto_spec_u32_to_from_le_bytes();
    assert(e.len() == 12 + l0 + 8 * sl + 4 * dl);
    assert(bytes.subrange(pos, pos + e.len() as int) =~= e);
    assert(bytes.subrange(pos, pos + 4 + l0) =~= e.subrange(0, 4 + l0));
    assert(e.subrange(0, 4 + l0) =~= str_block(wp[k].0));
    let q0 = pos + 4 + l0;
    assert(bytes.subrange(q0, q0 + 4) =~= e.subrange(4 + l0, 8 + l0));
    assert(e.subrange(4 + l0, 8 + l0) =~= spec_u32_to_le_bytes(wp[k].1.len() as u32));
    assert(bytes.subrange(q0 + 4, q0 + 4 + 8 * sl) =~= e.subrange(8 + l0, 8 + l0 + 8 * sl));
    assert(e.subrange(8 + l0, 8 + l0 + 8 * sl) =~= bytes_of_elems(wp[k].1));
    assert(bytes.subrange(q0 + 4 + 8 * sl, q0 + 8 + 8 * sl) =~= e.subrange(
        8 + l0 + 8 * sl,
        12 + l0 + 8 * sl,
    ));
    assert(e.subrange(8 + l0 + 8 * sl, 12 + l0 + 8 * sl) =~= spec_u32_to_le_bytes(
        wp[k].2.len() as u32,
    ));
    assert(bytes.subrange(q0 + 8 + 8 * sl, q0 + 8 + 8 * sl + 4 * dl) =~= e.subrange(
        12 + l0 + 8 * sl,
        12 + l0 + 8 * sl + 4 * dl,
    ));
    assert(e.subrange(12 + l0 + 8 * sl, 12 + l0 + 8 * sl + 4 * dl) =~= bytes_of_elems(wp[k].2));
}


/// A saved state is loadable: the serialization of a well-formed,
/// serializable state whose parameters are readable, allocatable Float32
/// tensors is a well-formed wire stream, so `parse` accepts exactly the
/// bytes `serialize` produces. Together with `parse`'s accounting clause,
/// saving and loading such a state round-trips its metadata strings and
/// its parameters' names, shapes and Float32 values.
pub proof fn lemma_saved_state_parseable(st: &ModelState)
    requires
        st.wf(),
        st.spec_serializable(),
        forall|i: int|
            0 <= i < st.spec_parameters().len() ==> (#[trigger] st.spec_parameters()[i]).1.spec_readable_f32()
                && crate::tensor::tensor_impl::TensorImpl::can_allocate(
                st.spec_parameters()[i].1.spec_shape(),
                crate::tensor::options::default_options(),
            ),
    ensures
        is_serialization_of(
            serialized_bytes(st.wire_meta(), st.wire_params()),
            st.wire_meta(),
            st.wire_params(),
        ),
{
    let wm = st.wire_meta();
    let wp = st.wire_params();
    assert forall|i: int|
        0 <= i < wm.len() implies encode_utf8((#[trigger] wm[i]).0).len() <= u32::MAX
        && encode_utf8(wm[i].1).len() <= u32::MAX by {
        assert(wm[i] == (st.spec_metadata()[i].0@, st.spec_metadata()[i].1@));
        assert(encode_utf8((st.spec_metadata()[i]).0@).len() <= u32::MAX);
    }
    assert forall|i: int|
        0 <= i < wp.len() implies {
        let p = #[trigger] wp[i];
        &&& encode_utf8(p.0).len() <= u32::MAX
        &&& p.1.len() <= u32::MAX
        &&& p.2.len() <= u32::MAX
        &&& crate::tensor::shape::layout_ok(p.1)
        &&& crate::tensor::shape::shape_product(p.1) == p.2.len()
        &&& crate::tensor::shape::shape_product(p.1) >= 1
        &&& crate::tensor::shape::shape_product(p.1) * 4 <= usize::MAX
    } by {
        let entry = st.spec_parameters()[i];
        assert(wp[i] == (entry.0@, entry.1.spec_shape(), tensor_wire_data(entry.1)));
        assert(entry.1.spec_readable_f32());
        assert(entry.1.wf());
        assert((#[trigger] st.spec_parameters()[i]).1.spec_readable_f32());
        match entry.1.impl_ {
            Some(ti) => {
                assert(tensor_wire_data(entry.1) == crate::tensor::tensor::f32_data(*ti));
                assert(crate::tensor::tensor::f32_data(*ti).len() == ti.spec_numel());
                assert(ti.spec_numel() == crate::tensor::shape::shape_product(ti.spec_shape()));
            },
            None => {},
        }
    }
}

/// The metadata entries of a raw stream, as character sequences.
pub open spec fn wire_of_meta(rm: Seq<(String, String)>) -> Seq<(Seq<char>, Seq<char>)> {
    rm.map_values(|kv: (String, String)| (kv.0@, kv.1@))
}

/// The parameter entries of a raw stream, as (name, shape, data) triples.
pub open spec fn wire_of_params(rp: Seq<(String, Tensor)>) -> Seq<(Seq<char>, Seq<i64>, Seq<u32>)> {
    rp.map_values(|p: (String, Tensor)| (p.0@, p.1.spec_shape(), tensor_wire_data(p.1)))
}

impl ModelState {
    pub closed spec fn spec_parameters(&self) -> Seq<(String, Tensor)> {
        self.parameters@
    }

    pub closed spec fn spec_metadata(&self) -> Seq<(String, String)> {
        self.metadata@
    }

    pub open spec fn wf(&self) -> bool {
        &&& unique_str_keys(self.spec_parameters())
        &&& unique_str_keys(self.spec_metadata())
        &&& forall|i: int|
            0 <= i < self.spec_parameters().len() ==> (#[trigger] self.spec_parameters()[i]).1.wf()
    }

    pub fn new() -> (r: Self)
        ensures
            r.wf(),
            r.spec_parameters() == Seq::<(String, Tensor)>::empty(),
            r.spec_metadata() == Seq::<(String, String)>::empty(),
    {
        let r = ModelState { parameters: Vec::new(), metadata: Vec::new() };
        proof {
            assert(r.spec_parameters() =~= Seq::<(String, Tensor)>::empty());
            assert(r.spec_metadata() =~= Seq::<(String, String)>::empty());
        }
        r
    }

    /// Adds a parameter, replacing the value of an existing name.
    pub fn add_parameter(&mut self, name: String, tensor: Tensor)
        requires
            old(self).wf(),
            tensor.wf(),
        ensures
            final(self).wf(),
            final(self).spec_metadata() == old(self).spec_metadata(),
            (exists|i: int|
                0 <= i < old(self).spec_parameters().len() && (#[trigger] old(
                    self,
                ).spec_parameters()[i]).0@ == name@) ==> (exists|i: int|
                {
                    &&& 0 <= i < old(self).spec_parameters().len()
                    &&& (#[trigger] old(self).spec_parameters()[i]).0@ == name@
                    &&& final(self).spec_parameters() == old(self).spec_parameters().update(
                        i,
                        (name, tensor),
                    )
                }),
            !(exists|i: int|
                0 <= i < old(self).spec_parameters().len() && (#[trigger] old(
                    self,
                ).spec_parameters()[i]).0@ == name@) ==> final(self).spec_parameters() == old(
                self,
            ).spec_parameters().push((name, tensor)),
    {
        let n = self.parameters.len();
        let mut i: usize = 0;
        while i < n
            invariant
                old(self).wf(),
                tensor.wf(),
                *self == *old(self),
                n == self.parameters@.len(),
                i <= n,
                forall|j: int| 0 <= j < i ==> (#[trigger] self.parameters@[j]).0@ != name@,
            decreases n - i,
        {
            if str_eq(self.parameters[i].0.as_str(), name.as_str()) {
                let ghost oldseq = self.parameters@;
                self.parameters.set(i, (name, tensor));
                proof {
                    assert forall|p: int, q: int|
                        0 <= p < q < self.parameters@.len() implies (#[trigger] self.parameters@[p].0)@
                        != (#[trigger] self.parameters@[q].0)@ by {
                        assert((oldseq[p].0)@ != (oldseq[q].0)@);
                        if q == i {
                            assert((oldseq[p].0)@ != name@);
                        }
                        if p == i {
                            assert((oldseq[i as int].0)@ == name@);
                            assert((oldseq[q].0)@ != name@);
                        }
                    }
                    assert(0 <= i < old(self).spec_parameters().len() && (#[trigger] old(
                        self,
                    ).spec_parameters()[i as int]).0@ == name@);
                    assert forall|j: int|
                        0 <= j < self.parameters@.len() implies (#[trigger] self.parameters@[j]).1.wf() by {
                        if j != i {
                            assert(self.parameters@[j] == oldseq[j]);
                            assert(oldseq[j].1.wf());
                        }
                    }
                }
                return ;
            }
            i += 1;
        }
        self.parameters.push((name, tensor));
    }

    pub fn get_parameter(&self, name: &str) -> (r: Option<&Tensor>)
        ensures
            match r {
                Some(t) => exists|i: int|
                    0 <= i < self.spec_parameters().len() && (#[trigger] self.spec_parameters()[i]).0@
                        == name@ && self.spec_parameters()[i].1 == *t,
                None => forall|i: int|
                    0 <= i < self.spec_parameters().len() ==> (#[trigger] self.spec_parameters()[i]).0@
                        != name@,
            },
    {
        let n = self.parameters.len();
        let mut i: usize = 0;
        while i < n
            invariant
                n == self.parameters@.len(),
                i <= n,
                forall|j: int| 0 <= j < i ==> (#[trigger] self.parameters@[j]).0@ != name@,
            decreases n - i,
        {
            if str_eq(self.parameters[i].0.as_str(), name) {
                proof {
                    assert(0 <= i < self.spec_parameters().len() && (#[trigger] self.spec_parameters()[i as int]).0@
                        == name@);
                }
                return Some(&self.parameters[i].1);
            }
            i += 1;
        }
        None
    }

    /// Mutable access to a parameter's tensor, when the name is present.
    pub fn get_parameter_mut(&mut self, name: &str) -> (r: Option<&mut Tensor>)
        ensures
            final(self).spec_metadata() == old(self).spec_metadata(),
            match r {
                Some(m) => exists|i: int|
                    {
                        &&& 0 <= i < old(self).spec_parameters().len()
                        &&& (#[trigger] old(self).spec_parameters()[i]).0@ == name@
                        &&& *m == old(self).spec_parameters()[i].1
                        &&& final(self).spec_parameters() == old(self).spec_parameters().update(
                            i,
                            (old(self).spec_parameters()[i].0, *final(m)),
                        )
                    },
                None => final(self).spec_parameters() == old(self).spec_parameters() && forall|
                    i: int,
                |
                    0 <= i < old(self).spec_parameters().len() ==> (#[trigger] old(
                        self,
                    ).spec_parameters()[i]).0@ != name@,
            },
    {
        let n = self.parameters.len();
        let mut i: usize = 0;
        while i < n
            invariant
                *self == *old(self),
                n == self.parameters@.len(),
                i <= n,
                forall|j: int| 0 <= j < i ==> (#[trigger] self.parameters@[j]).0@ != name@,
            decreases n - i,
        {
            if str_eq(self.parameters[i].0.as_str(), name) {
                proof {
                    assert(0 <= i < self.spec_parameters().len() && (#[trigger] self.spec_parameters()[i as int]).0@
                        == name@);
                }
                return Some(&mut self.parameters[i].1);
            }
            i += 1;
        }
        None
    }

    /// Removes and returns a parameter by name.
    pub fn remove_parameter(&mut self, name: &str) -> (r: Option<Tensor>)
        requires
            old(self).wf(),
        ensures
            final(self).wf(),
            final(self).spec_metadata() == old(self).spec_metadata(),
            match r {
                Some(t) => exists|i: int|
                    {
                        &&& 0 <= i < old(self).spec_parameters().len()
                        &&& (#[trigger] old(self).spec_parameters()[i]).0@ == name@
                        &&& t == old(self).spec_parameters()[i].1
                        &&& final(self).spec_parameters() == old(self).spec_parameters().remove(i)
                    },
                None => final(self).spec_parameters() == old(self).spec_parameters() && forall|
                    i: int,
                |
                    0 <= i < old(self).spec_parameters().len() ==> (#[trigger] old(
                        self,
                    ).spec_parameters()[i]).0@ != name@,
            },
    {
        let n = self.parameters.len();
        let mut i: usize = 0;
        while i < n
            invariant
                old(self).wf(),
                *self == *old(self),
                n == self.parameters@.len(),
                i <= n,
                forall|j: int| 0 <= j < i ==> (#[trigger] self.parameters@[j]).0@ != name@,
            decreases n - i,
        {
            if str_eq(self.parameters[i].0.as_str(), name) {
                let entry = self.parameters.remove(i);
                return Some(entry.1);
            }
            i += 1;
        }
        None
    }

    /// The parameter names, in insertion order.
    pub fn parameter_names(&self) -> (r: Vec<&String>)
        ensures
            r@.len() == self.spec_parameters().len(),
            forall|i: int|
                0 <= i < r@.len() ==> (#[trigger] r@[i])@ == self.spec_parameters()[i].0@,
    {
        let n = self.parameters.len();
        let mut out: Vec<&String> = Vec::new();
        let mut i: usize = 0;
        while i < n
            invariant
                n == self.parameters@.len(),
                i <= n,
                out@.len() == i,
                forall|j: int| 0 <= j < i ==> (#[trigger] out@[j])@ == self.parameters@[j].0@,
            decreases n - i,
        {
            out.push(&self.parameters[i].0);
            i += 1;
        }
        out
    }

    pub fn num_parameters(&self) -> (r: usize)
        ensures
            r == self.spec_parameters().len(),
    {
        self.parameters.len()
    }

    /// Adds a metadata entry, replacing the value of an existing key.
    pub fn add_metadata(&mut self, key: String, value: String)
        requires
            old(self).wf(),
        ensures
            final(self).wf(),
            final(self).spec_parameters() == old(self).spec_parameters(),
            (exists|i: int|
                0 <= i < old(self).spec_metadata().len() && (#[trigger] old(
                    self,
                ).spec_metadata()[i]).0@ == key@) ==> (exists|i: int|
                {
                    &&& 0 <= i < old(self).spec_metadata().len()
                    &&& (#[trigger] old(self).spec_metadata()[i]).0@ == key@
                    &&& final(self).spec_metadata() == old(self).spec_metadata().update(
                        i,
                        (key, value),
                    )
                }),
            !(exists|i: int|
                0 <= i < old(self).spec_metadata().len() && (#[trigger] old(
                    self,
                ).spec_metadata()[i]).0@ == key@) ==> final(self).spec_metadata() == old(
                self,
            ).spec_metadata().push((key, value)),
    {
        let n = self.metadata.len();
        let mut i: usize = 0;
        while i < n
            invariant
                old(self).wf(),
                *self == *old(self),
                n == self.metadata@.len(),
                i <= n,
                forall|j: int| 0 <= j < i ==> (#[trigger] self.metadata@[j]).0@ != key@,
            decreases n - i,
        {
            if str_eq(self.metadata[i].0.as_str(), key.as_str()) {
                let ghost oldseq = self.metadata@;
                self.metadata.set(i, (key, value));
                proof {
                    assert forall|p: int, q: int|
                        0 <= p < q < self.metadata@.len() implies (#[trigger] self.metadata@[p].0)@
                        != (#[trigger] self.metadata@[q].0)@ by {
                        assert((oldseq[p].0)@ != (oldseq[q].0)@);
                        if q == i {
                            assert((oldseq[p].0)@ != key@);
                        }
                        if p == i {
                            assert((oldseq[i as int].0)@ == key@);
                            assert((oldseq[q].0)@ != key@);
                        }
                    }
                    assert(0 <= i < old(self).spec_metadata().len() && (#[trigger] old(
                        self,
                    ).spec_metadata()[i as int]).0@ == key@);
                }
                return ;
            }
            i += 1;
        }
        self.metadata.push((key, value));
    }

    pub fn get_metadata(&self, key: &str) -> (r: Option<&String>)
        ensures
            match r {
                Some(v) => exists|i: int|
                    0 <= i < self.spec_metadata().len() && (#[trigger] self.spec_metadata()[i]).0@
                        == key@ && self.spec_metadata()[i].1@ == v@,
                None => forall|i: int|
                    0 <= i < self.spec_metadata().len() ==> (#[trigger] self.spec_metadata()[i]).0@
                        != key@,
            },
    {
        let n = self.metadata.len();
        let mut i: usize = 0;
        while i < n
            invariant
                n == self.metadata@.len(),
                i <= n,
                forall|j: int| 0 <= j < i ==> (#[trigger] self.metadata@[j]).0@ != key@,
            decreases n - i,
        {
            if str_eq(self.metadata[i].0.as_str(), key) {
                proof {
                    assert(0 <= i < self.spec_metadata().len() && (#[trigger] self.spec_metadata()[i as int]).0@
                        == key@);
                }
                return Some(&self.metadata[i].1);
            }
            i += 1;
        }
        None
    }
}

impl Default for ModelState {
    fn default() -> (r: Self)
        ensures
            r.wf(),
            r.spec_parameters() == Seq::<(String, Tensor)>::empty(),
            r.spec_metadata() == Seq::<(String, String)>::empty(),
    {
        Self::new()
    }
}


// ---------------------------------------------------------------------
// The persisted binary layout.
//
// 8-byte ASCII magic "RTORCH01"; little-endian u32 metadata entry count;
// per entry a u32 key length, the key's UTF-8 bytes, a u32 value length
// and the value's UTF-8 bytes; a u32 parameter count; per parameter a u32
// name length and name bytes, a u32 dimension count and that many
// little-endian i64 dimensions, then a u32 element count and that many
// little-endian Float32 values.
// ---------------------------------------------------------------------

/// The ASCII bytes of the magic header "RTORCH01".
pub open spec fn magic_bytes() -> Seq<u8> {
    seq![82u8, 84u8, 79u8, 82u8, 67u8, 72u8, 48u8, 49u8]
}

/// A length-prefixed UTF-8 string block.
pub open spec fn str_block(s: Seq<char>) -> Seq<u8> {
    spec_u32_to_le_bytes(encode_utf8(s).len() as u32) + encode_utf8(s)
}

/// One serialized metadata entry: key block then value block.
pub open spec fn meta_entry_bytes(kv: (Seq<char>, Seq<char>)) -> Seq<u8> {
    str_block(kv.0) + str_block(kv.1)
}

/// One serialized parameter: name block, dimension count and dimensions,
/// element count and element bytes.
pub open spec fn param_entry_bytes(p: (Seq<char>, Seq<i64>, Seq<u32>)) -> Seq<u8> {
    str_block(p.0) + spec_u32_to_le_bytes(p.1.len() as u32) + bytes_of_elems(p.1)
        + spec_u32_to_le_bytes(p.2.len() as u32) + bytes_of_elems(p.2)
}

/// The whole serialized checkpoint for the given metadata entries and
/// parameters (each parameter reduced to its name, shape and Float32
/// element bit patterns).
pub open spec fn serialized_bytes(
    m: Seq<(Seq<char>, Seq<char>)>,
    ps: Seq<(Seq<char>, Seq<i64>, Seq<u32>)>,
) -> Seq<u8> {
    magic_bytes() + spec_u32_to_le_bytes(m.len() as u32) + m.map_values(
        |kv: (Seq<char>, Seq<char>)| meta_entry_bytes(kv),
    ).flatten() + spec_u32_to_le_bytes(ps.len() as u32) + ps.map_values(
        |p: (Seq<char>, Seq<i64>, Seq<u32>)| param_entry_bytes(p),
    ).flatten()
}

/// The Float32 values a tensor contributes to the file: its elements when
/// they can be read out as Float32, nothing otherwise.
pub open spec fn tensor_wire_data(t: Tensor) -> Seq<u32> {
    if t.spec_readable_f32() {
        t.spec_f32_data()
    } else {
        Seq::<u32>::empty()
    }
}

impl ModelState {
    /// The metadata entries as character sequences, in insertion order.
    pub open spec fn wire_meta(&self) -> Seq<(Seq<char>, Seq<char>)> {
        self.spec_metadata().map_values(|kv: (String, String)| (kv.0@, kv.1@))
    }

    /// The parameters as (name, shape, Float32 values), in insertion order.
    pub open spec fn wire_params(&self) -> Seq<(Seq<char>, Seq<i64>, Seq<u32>)> {
        self.spec_parameters().map_values(
            |p: (String, Tensor)| (p.0@, p.1.spec_shape(), tensor_wire_data(p.1)),
        )
    }

    /// Whether every count and length of this state fits the format's u32
    /// fields and every parameter is defined.
    pub open spec fn spec_serializable(&self) -> bool {
        &&& self.spec_metadata().len() <= u32::MAX
        &&& self.spec_parameters().len() <= u32::MAX
        &&& forall|i: int|
            0 <= i < self.spec_metadata().len() ==> encode_utf8(
                (#[trigger] self.spec_metadata()[i]).0@,
            ).len() <= u32::MAX && encode_utf8(self.spec_metadata()[i].1@).len() <= u32::MAX
        &&& forall|i: int|
            0 <= i < self.spec_parameters().len() ==> {
                let p = #[trigger] self.spec_parameters()[i];
                &&& p.1.impl_ is Some
                &&& encode_utf8(p.0@).len() <= u32::MAX
                &&& p.1.spec_shape().len() <= u32::MAX
                &&& tensor_wire_data(p.1).len() <= u32::MAX
            }
    }

    /// Serializes the state into the checkpoint byte format. Fails exactly
    /// when a parameter is undefined or some count exceeds a u32 field.
    pub fn serialize(&self) -> (r: Result<Vec<u8>, String>)
        requires
            self.wf(),
        ensures
            r is Ok <==> self.spec_serializable(),
            r matches Ok(v) ==> v@ == serialized_bytes(self.wire_meta(), self.wire_params()),
    {
        let mut out: Vec<u8> = Vec::new();
        // The magic header "RTORCH01".
        out.push(82);
        out.push(84);
        out.push(79);
        out.push(82);
        out.push(67);
        out.push(72);
        out.push(48);
        out.push(49);
        proof {
            assert(out@ =~= magic_bytes());
        }
        if self.metadata.len() as u64 > u32::MAX as u64 {
            return Err("Too many metadata entries to serialize".to_owned());
        }
        push_u32(&mut out, self.metadata.len() as u32);
        let mcount = self.metadata.len();
        let ghost wm = self.wire_meta();
        let ghost head = magic_bytes() + spec_u32_to_le_bytes(wm.len() as u32);
        proof {
            assert(wm.take(0).map_values(|kv: (Seq<char>, Seq<char>)| meta_entry_bytes(kv))
                =~= Seq::<Seq<u8>>::empty());
            assert(Seq::<Seq<u8>>::empty().flatten() =~= Seq::<u8>::empty());
            assert(out@ =~= head);
        }
        let mut i: usize = 0;
        while i < mcount
            invariant
                self.wf(),
                mcount == self.spec_metadata().len(),
                wm == self.wire_meta(),
                head == magic_bytes() + spec_u32_to_le_bytes(wm.len() as u32),
                i <= mcount,
                forall|j: int|
                    0 <= j < i ==> encode_utf8((#[trigger] self.spec_metadata()[j]).0@).len()
                        <= u32::MAX && encode_utf8(self.spec_metadata()[j].1@).len() <= u32::MAX,
                out@ == head + wm.take(i as int).map_values(
                    |kv: (Seq<char>, Seq<char>)| meta_entry_bytes(kv),
                ).flatten(),
            decreases mcount - i,
        {
            let ghost done = wm.take(i as int).map_values(
                |kv: (Seq<char>, Seq<char>)| meta_entry_bytes(kv),
            );
            let key_ok = push_str_block(&mut out, self.metadata[i].0.as_str());
            if !key_ok {
                return Err("Metadata key too long to serialize".to_owned());
            }
            let value_ok = push_str_block(&mut out, self.metadata[i].1.as_str());
            if !value_ok {
                return Err("Metadata value too long to serialize".to_owned());
            }
            proof {
                assert(wm[i as int] == (self.spec_metadata()[i as int].0@, self.spec_metadata()[
                    i as int].1@));
                assert(out@ =~= head + done.flatten() + meta_entry_bytes(wm[i as int]));
                crate::tensor::dtype::lemma_flatten_push(done, meta_entry_bytes(wm[i as int]));
                assert(wm.take(i + 1) =~= wm.take(i as int).push(wm[i as int]));
                assert(wm.take(i + 1).map_values(
                    |kv: (Seq<char>, Seq<char>)| meta_entry_bytes(kv),
                ) =~= done.push(meta_entry_bytes(wm[i as int])));
                assert(out@ =~= head + wm.take(i + 1).map_values(
                    |kv: (Seq<char>, Seq<char>)| meta_entry_bytes(kv),
                ).flatten());
            }
            i += 1;
        }
        proof {
            assert(wm.take(mcount as int) =~= wm);
        }
        if self.parameters.len() as u64 > u32::MAX as u64 {
            return Err("Too many parameters to serialize".to_owned());
        }
        push_u32(&mut out, self.parameters.len() as u32);
        let pcount = self.parameters.len();
        let ghost wp = self.wire_params();
        let ghost head2 = head + wm.map_values(
            |kv: (Seq<char>, Seq<char>)| meta_entry_bytes(kv),
        ).flatten() + spec_u32_to_le_bytes(wp.len() as u32);
        proof {
            assert(wp.take(0).map_values(
                |p: (Seq<char>, Seq<i64>, Seq<u32>)| param_entry_bytes(p),
            ) =~= Seq::<Seq<u8>>::empty());
            assert(Seq::<Seq<u8>>::empty().flatten() =~= Seq::<u8>::empty());
            assert(out@ =~= head2);
        }
        let mut i: usize = 0;
        while i < pcount
            invariant
                self.wf(),
                pcount == self.spec_parameters().len(),
                wp == self.wire_params(),
                self.spec_metadata().len() <= u32::MAX,
                self.spec_parameters().len() <= u32::MAX,
                forall|j: int|
                    0 <= j < self.spec_metadata().len() ==> encode_utf8(
                        (#[trigger] self.spec_metadata()[j]).0@,
                    ).len() <= u32::MAX && encode_utf8(self.spec_metadata()[j].1@).len()
                        <= u32::MAX,
                i <= pcount,
                forall|j: int|
                    0 <= j < i ==> {
                        let p = #[trigger] self.spec_parameters()[j];
                        &&& p.1.impl_ is Some
                        &&& encode_utf8(p.0@).len() <= u32::MAX
                        &&& p.1.spec_shape().len() <= u32::MAX
                        &&& tensor_wire_data(p.1).len() <= u32::MAX
                    },
                out@ == head2 + wp.take(i as int).map_values(
                    |p: (Seq<char>, Seq<i64>, Seq<u32>)| param_entry_bytes(p),
                ).flatten(),
            decreases pcount - i,
        {
            let ghost done = wp.take(i as int).map_values(
                |p: (Seq<char>, Seq<i64>, Seq<u32>)| param_entry_bytes(p),
            );
            let entry = &self.parameters[i];
            if !entry.1.defined() {
                return Err("Parameter is not defined".to_owned());
            }
            let name_ok = push_str_block(&mut out, entry.0.as_str());
            if !name_ok {
                return Err("Parameter name too long to serialize".to_owned());
            }
            let shape = entry.1.shape();
            if shape.len() as u64 > u32::MAX as u64 {
                return Err("Parameter shape too long to serialize".to_owned());
            }
            push_u32(&mut out, shape.len() as u32);
            let ghost mark1 = out@;
            let mut d: usize = 0;
            while d < shape.len()
                invariant
                    d <= shape@.len(),
                    out@ == mark1 + bytes_of_elems(shape@.take(d as int)),
                decreases shape@.len() - d,
            {
                proof {
                    assert(bytes_of_elems(shape@.take(0)) =~= Seq::<u8>::empty()) by {
                        assert(shape@.take(0).map_values(|e: i64| e.spec_to_bytes())
                            =~= Seq::<Seq<u8>>::empty());
                    }
                }
                let e = shape[d];
                e.append_bytes(&mut out);
                proof {
                    crate::tensor::dtype::lemma_bytes_of_elems_push(
                        shape@.take(d as int),
                        shape@[d as int],
                    );
                    assert(shape@.take(d + 1) =~= shape@.take(d as int).push(shape@[d as int]));
                }
                d += 1;
            }
            proof {
                assert(shape@.take(shape@.len() as int) =~= shape@);
            }
            let data = entry.1.to_list::<u32>();
            proof {
                if entry.1.spec_readable_f32() {
                    let ti = &self.parameters@[i as int].1.impl_;
                    match ti {
                        Some(rc) => {
                            crate::tensor::tensor::lemma_f32_list(data@, rc);
                        },
                        None => {},
                    }
                } else {
                    assert(data@ =~= Seq::<u32>::empty());
                }
                assert(data@ == tensor_wire_data(self.spec_parameters()[i as int].1));
            }
            if data.len() as u64 > u32::MAX as u64 {
                return Err("Parameter data too long to serialize".to_owned());
            }
            push_u32(&mut out, data.len() as u32);
            let ghost mark2 = out@;
            let mut d: usize = 0;
            while d < data.len()
                invariant
                    d <= data@.len(),
                    out@ == mark2 + bytes_of_elems(data@.take(d as int)),
                decreases data@.len() - d,
            {
                proof {
                    assert(bytes_of_elems(data@.take(0)) =~= Seq::<u8>::empty()) by {
                        assert(data@.take(0).map_values(|e: u32| e.spec_to_bytes())
                            =~= Seq::<Seq<u8>>::empty());
                    }
                }
                let e = data[d];
                e.append_bytes(&mut out);
                proof {
                    crate::tensor::dtype::lemma_bytes_of_elems_push(
                        data@.take(d as int),
                        data@[d as int],
                    );
                    assert(data@.take(d + 1) =~= data@.take(d as int).push(data@[d as int]));
                }
                d += 1;
            }
            proof {
                assert(data@.take(data@.len() as int) =~= data@);
                assert(wp[i as int] == (self.spec_parameters()[i as int].0@,
                    self.spec_parameters()[i as int].1.spec_shape(), tensor_wire_data(
                    self.spec_parameters()[i as int].1,
                )));
                assert(out@ =~= head2 + done.flatten() + param_entry_bytes(wp[i as int]));
                crate::tensor::dtype::lemma_flatten_push(done, param_entry_bytes(wp[i as int]));
                assert(wp.take(i + 1) =~= wp.take(i as int).push(wp[i as int]));
                assert(wp.take(i + 1).map_values(
                    |p: (Seq<char>, Seq<i64>, Seq<u32>)| param_entry_bytes(p),
                ) =~= done.push(param_entry_bytes(wp[i as int])));
                assert(out@ =~= head2 + wp.take(i + 1).map_values(
                    |p: (Seq<char>, Seq<i64>, Seq<u32>)| param_entry_bytes(p),
                ).flatten());
            }
            i += 1;
        }
        proof {
            assert(wp.take(pcount as int) =~= wp);
            assert(out@ =~= serialized_bytes(self.wire_meta(), self.wire_params()));
        }
        Ok(out)
    }

    /// Parses a serialized checkpoint. A byte stream whose first bytes are
    /// not the magic header is rejected outright, before any state is
    /// built; duplicate keys in the stream follow insertion semantics (the
    /// last occurrence wins); trailing bytes after the last parameter are
    /// ignored.
    ///
    /// Success is owed: any exact serialization of a well-formed wire
    /// stream (see `wire_ok`) is accepted. Conversely, whatever parsing
    /// accepts is accounted for exactly: the consumed prefix of the input
    /// is the serialization of some raw entry stream whose insertion-fold
    /// is the returned state, so serialization maps a loaded state back
    /// onto the very bytes it was loaded from.
    pub fn parse(bytes: &[u8]) -> (r: Result<ModelState, String>)
        ensures
            bytes@.len() >= 8 && bytes@.subrange(0, 8) != magic_bytes() ==> r is Err,
            bytes@.len() < 8 ==> r is Err,
            r matches Ok(st) ==> st.wf(),
            r matches Ok(st) ==> exists|rm: Seq<(String, String)>, rp: Seq<(String, Tensor)>, consumed: int|
                #![trigger serialized_bytes(wire_of_meta(rm), wire_of_params(rp)), bytes@.subrange(0, consumed)]
                {
                    &&& 8 <= consumed <= bytes@.len()
                    &&& bytes@.subrange(0, consumed) == serialized_bytes(
                        wire_of_meta(rm),
                        wire_of_params(rp),
                    )
                    &&& st.spec_metadata() == spec_insert_all(rm)
                    &&& st.spec_parameters() == spec_insert_all(rp)
                },
            forall|wm: Seq<(Seq<char>, Seq<char>)>, wp: Seq<(Seq<char>, Seq<i64>, Seq<u32>)>|
                #[trigger] is_serialization_of(bytes@, wm, wp) ==> r is Ok,
    {
        if bytes.len() < 8 {
            proof {
                assert forall|wm: Seq<(Seq<char>, Seq<char>)>, wp: Seq<(Seq<char>, Seq<i64>, Seq<u32>)>|
                    #[trigger] is_serialization_of(bytes@, wm, wp) implies false by {
                    lemma_serialized_layout(bytes@, wm, wp);
                }
            }
            return Err("Failed to read header".to_owned());
        }
        if !(bytes[0] == 82 && bytes[1] == 84 && bytes[2] == 79 && bytes[3] == 82 && bytes[4]
            == 67 && bytes[5] == 72 && bytes[6] == 48 && bytes[7] == 49) {
            proof {
                assert(bytes@.subrange(0, 8) != magic_bytes()) by {
                    if bytes@.subrange(0, 8) == magic_bytes() {
                        assert(bytes@.subrange(0, 8)[0] == 82);
                        assert(bytes@.subrange(0, 8)[1] == 84);
                        assert(bytes@.subrange(0, 8)[2] == 79);
                        assert(bytes@.subrange(0, 8)[3] == 82);
                        assert(bytes@.subrange(0, 8)[4] == 67);
                        assert(bytes@.subrange(0, 8)[5] == 72);
                        assert(bytes@.subrange(0, 8)[6] == 48);
                        assert(bytes@.subrange(0, 8)[7] == 49);
                    }
                }
                assert forall|wm: Seq<(Seq<char>, Seq<char>)>, wp: Seq<(Seq<char>, Seq<i64>, Seq<u32>)>|
                    #[trigger] is_serialization_of(bytes@, wm, wp) implies false by {
                    lemma_serialized_layout(bytes@, wm, wp);
                }
            }
            return Err("Invalid file format: wrong magic header".to_owned());
        }
        proof {
            assert(bytes@.subrange(0, 8) =~= magic_bytes());
        }
        let mut pos: usize = 8;
        let mut state = ModelState::new();
        let metadata_count = match read_u32(bytes, &mut pos) {
            Err(e) => {
                proof {
                    assert forall|wm: Seq<(Seq<char>, Seq<char>)>, wp: Seq<(Seq<char>, Seq<i64>, Seq<u32>)>|
                        #[trigger] is_serialization_of(bytes@, wm, wp) implies false by {
                        lemma_serialized_layout(bytes@, wm, wp);
                    }
                }
                return Err(e);
            },
            Ok(v) => v,
        };
        let ghost mut rm: Seq<(String, String)> = Seq::empty();
        proof {
            assert(bytes@.subrange(12, 12) =~= Seq::<u8>::empty());
            assert(wire_of_meta(rm) =~= Seq::<(Seq<char>, Seq<char>)>::empty());
            assert(wire_of_meta(rm).map_values(|kv: (Seq<char>, Seq<char>)| meta_entry_bytes(kv))
                =~= Seq::<Seq<u8>>::empty());
            assert(Seq::<Seq<u8>>::empty().flatten() =~= Seq::<u8>::empty());
            assert(spec_insert_all(rm) =~= Seq::<(String, String)>::empty());
            assert forall|wm: Seq<(Seq<char>, Seq<char>)>, wp: Seq<(Seq<char>, Seq<i64>, Seq<u32>)>|
                #[trigger] is_serialization_of(bytes@, wm, wp) implies 0 <= wm.len()
                && wire_of_meta(rm) == wm.take(0) by {
                assert(wire_of_meta(rm) =~= wm.take(0));
            }
        }
        let mut k: u32 = 0;
        while k < metadata_count
            invariant
                state.wf(),
                state.spec_parameters() == Seq::<(String, Tensor)>::empty(),
                pos <= bytes@.len(),
                12 <= pos,
                bytes@.len() >= 12,
                bytes@.subrange(0, 8) == magic_bytes(),
                metadata_count == spec_u32_from_le_bytes(bytes@.subrange(8, 12)),
                k <= metadata_count,
                rm.len() == k,
                bytes@.subrange(12, pos as int) == wire_of_meta(rm).map_values(
                    |kv: (Seq<char>, Seq<char>)| meta_entry_bytes(kv),
                ).flatten(),
                state.spec_metadata() == spec_insert_all(rm),
                forall|wm: Seq<(Seq<char>, Seq<char>)>, wp: Seq<(Seq<char>, Seq<i64>, Seq<u32>)>|
                    #[trigger] is_serialization_of(bytes@, wm, wp) ==> k <= wm.len()
                        && wire_of_meta(rm) == wm.take(k as int),
            decreases metadata_count - k,
        {
            let ghost pos0 = pos as int;
            proof {
                assert forall|wm: Seq<(Seq<char>, Seq<char>)>, wp: Seq<(Seq<char>, Seq<i64>, Seq<u32>)>|
                    #[trigger] is_serialization_of(bytes@, wm, wp) implies k < wm.len()
                    && str_block_at(bytes@, pos0, wm[k as int].0) && str_block_at(
                    bytes@,
                    pos0 + 4 + encode_utf8(wm[k as int].0).len() as int,
                    wm[k as int].1,
                ) by {
                    lemma_serialized_layout(bytes@, wm, wp);
                    lemma_count_bytes(bytes@, 8, wm.len(), metadata_count);
                    assert(wire_of_meta(rm) == wm.take(k as int));
                    assert(meta_flat(wm.take(k as int)) == wire_of_meta(rm).map_values(
                        |kv: (Seq<char>, Seq<char>)| meta_entry_bytes(kv),
                    ).flatten());
                    lemma_meta_alignment(bytes@, wm, wp, k as int, pos0);
                }
            }
            let key = match read_string(bytes, &mut pos) {
                Err(e) => {
                    proof {
                        assert forall|wm: Seq<(Seq<char>, Seq<char>)>, wp: Seq<(Seq<char>, Seq<i64>, Seq<u32>)>|
                            #[trigger] is_serialization_of(bytes@, wm, wp) implies false by {
                            assert(str_block_at(bytes@, pos0, wm[k as int].0));
                        }
                    }
                    return Err(e);
                },
                Ok(v) => v,
            };
            let ghost pos1 = pos as int;
            proof {
                assert forall|wm: Seq<(Seq<char>, Seq<char>)>, wp: Seq<(Seq<char>, Seq<i64>, Seq<u32>)>|
                    #[trigger] is_serialization_of(bytes@, wm, wp) implies key@ == wm[k as int].0
                    && str_block_at(bytes@, pos1, wm[k as int].1) by {
                    lemma_same_block(bytes@, pos0, key@, wm[k as int].0);
                }
            }
            let value = match read_string(bytes, &mut pos) {
                Err(e) => {
                    proof {
                        assert forall|wm: Seq<(Seq<char>, Seq<char>)>, wp: Seq<(Seq<char>, Seq<i64>, Seq<u32>)>|
                            #[trigger] is_serialization_of(bytes@, wm, wp) implies false by {
                            assert(str_block_at(bytes@, pos1, wm[k as int].1));
                        }
                    }
                    return Err(e);
                },
                Ok(v) => v,
            };
            let ghost olds = state.spec_metadata();
            state.add_metadata(key, value);
            proof {
                lemma_insert_agrees(olds, state.spec_metadata(), key, value);
                let entry = (key@, value@);
                assert(bytes@.subrange(pos0, pos as int) =~= bytes@.subrange(pos0, pos1)
                    + bytes@.subrange(pos1, pos as int));
                assert(bytes@.subrange(pos0, pos as int) == meta_entry_bytes(entry));
                let done = wire_of_meta(rm).map_values(
                    |kv: (Seq<char>, Seq<char>)| meta_entry_bytes(kv),
                );
                assert(bytes@.subrange(12, pos as int) =~= bytes@.subrange(12, pos0)
                    + bytes@.subrange(pos0, pos as int));
                crate::tensor::dtype::lemma_flatten_push(done, meta_entry_bytes(entry));
                let rm_old = rm;
                rm = rm.push((key, value));
                assert(rm.drop_last() =~= rm_old);
                assert(wire_of_meta(rm) =~= wire_of_meta(rm_old).push(entry));
                assert(wire_of_meta(rm).map_values(
                    |kv: (Seq<char>, Seq<char>)| meta_entry_bytes(kv),
                ) =~= done.push(meta_entry_bytes(entry)));
                assert(bytes@.subrange(12, pos as int) == wire_of_meta(rm).map_values(
                    |kv: (Seq<char>, Seq<char>)| meta_entry_bytes(kv),
                ).flatten());
                assert(rm.drop_last().len() == rm.len() - 1);
                assert(spec_insert_all(rm) == spec_insert(spec_insert_all(rm.drop_last()), key, value));
                assert(state.spec_metadata() == spec_insert_all(rm));
                assert forall|wm: Seq<(Seq<char>, Seq<char>)>, wp: Seq<(Seq<char>, Seq<i64>, Seq<u32>)>|
                    #[trigger] is_serialization_of(bytes@, wm, wp) implies k + 1 <= wm.len()
                    && wire_of_meta(rm) == wm.take(k + 1) by {
                    assert(key@ == wm[k as int].0);
                    lemma_same_block(bytes@, pos1, value@, wm[k as int].1);
                    assert(value@ == wm[k as int].1);
                    assert(wire_of_meta(rm_old) == wm.take(k as int));
                    assert(wm.take(k + 1) =~= wm.take(k as int).push(wm[k as int]));
                    assert(wire_of_meta(rm) =~= wm.take(k + 1));
                }
            }
            k += 1;
        }
        let ghost meta_end = pos as int;
        proof {
            assert forall|wm: Seq<(Seq<char>, Seq<char>)>, wp: Seq<(Seq<char>, Seq<i64>, Seq<u32>)>|
                #[trigger] is_serialization_of(bytes@, wm, wp) implies wire_of_meta(rm) == wm
                && meta_end == 12 + meta_flat(wm).len() by {
                lemma_serialized_layout(bytes@, wm, wp);
                lemma_count_bytes(bytes@, 8, wm.len(), metadata_count);
                assert(wire_of_meta(rm) == wm.take(wm.len() as int));
                assert(wm.take(wm.len() as int) =~= wm);
                assert(meta_flat(wm) == wire_of_meta(rm).map_values(
                    |kv: (Seq<char>, Seq<char>)| meta_entry_bytes(kv),
                ).flatten());
                assert(meta_end - 12 == meta_flat(wm).len());
            }
        }
        let param_count = match read_u32(bytes, &mut pos) {
            Err(e) => {
                proof {
                    assert forall|wm: Seq<(Seq<char>, Seq<char>)>, wp: Seq<(Seq<char>, Seq<i64>, Seq<u32>)>|
                        #[trigger] is_serialization_of(bytes@, wm, wp) implies false by {
                        lemma_serialized_layout(bytes@, wm, wp);
                        assert(meta_end == 12 + meta_flat(wm).len());
                        assert(meta_end + 4 <= bytes@.len());
                    }
                }
                return Err(e);
            },
            Ok(v) => v,
        };
        let ghost mut rp: Seq<(String, Tensor)> = Seq::empty();
        proof {
            assert(bytes@.subrange(meta_end + 4, meta_end + 4) =~= Seq::<u8>::empty());
            assert(wire_of_params(rp) =~= Seq::<(Seq<char>, Seq<i64>, Seq<u32>)>::empty());
            assert(wire_of_params(rp).map_values(
                |p: (Seq<char>, Seq<i64>, Seq<u32>)| param_entry_bytes(p),
            ) =~= Seq::<Seq<u8>>::empty());
            assert(Seq::<Seq<u8>>::empty().flatten() =~= Seq::<u8>::empty());
            assert(spec_insert_all(rp) =~= Seq::<(String, Tensor)>::empty());
            assert forall|wm: Seq<(Seq<char>, Seq<char>)>, wp: Seq<(Seq<char>, Seq<i64>, Seq<u32>)>|
                #[trigger] is_serialization_of(bytes@, wm, wp) implies 0 <= wp.len()
                && wire_of_params(rp) == wp.take(0) && param_count as int == wp.len() by {
                lemma_serialized_layout(bytes@, wm, wp);
                assert(wire_of_params(rp) =~= wp.take(0));
                assert(meta_end == 12 + meta_flat(wm).len());
                lemma_count_bytes(bytes@, meta_end, wp.len(), param_count);
            }
        }
        let mut k: u32 = 0;
        while k < param_count
            invariant
                state.wf(),
                pos <= bytes@.len(),
                12 <= meta_end,
                meta_end + 4 <= pos,
                bytes@.len() >= 12,
                bytes@.subrange(0, 8) == magic_bytes(),
                metadata_count == spec_u32_from_le_bytes(bytes@.subrange(8, 12)),
                rm.len() == metadata_count,
                bytes@.subrange(12, meta_end) == wire_of_meta(rm).map_values(
                    |kv: (Seq<char>, Seq<char>)| meta_entry_bytes(kv),
                ).flatten(),
                state.spec_metadata() == spec_insert_all(rm),
                param_count == spec_u32_from_le_bytes(bytes@.subrange(meta_end, meta_end + 4)),
                k <= param_count,
                rp.len() == k,
                bytes@.subrange(meta_end + 4, pos as int) == wire_of_params(rp).map_values(
                    |p: (Seq<char>, Seq<i64>, Seq<u32>)| param_entry_bytes(p),
                ).flatten(),
                state.spec_parameters() == spec_insert_all(rp),
                forall|wm: Seq<(Seq<char>, Seq<char>)>, wp: Seq<(Seq<char>, Seq<i64>, Seq<u32>)>|
                    #[trigger] is_serialization_of(bytes@, wm, wp) ==> k <= wp.len()
                        && wire_of_params(rp) == wp.take(k as int) && wire_of_meta(rm) == wm
                        && meta_end == 12 + meta_flat(wm).len() && param_count as int == wp.len(),
            decreases param_count - k,
        {
            let ghost entry_start = pos as int;
            proof {
                assert forall|wm: Seq<(Seq<char>, Seq<char>)>, wp: Seq<(Seq<char>, Seq<i64>, Seq<u32>)>|
                    #[trigger] is_serialization_of(bytes@, wm, wp) implies k < wp.len()
                    && param_aligned(bytes@, wp, k as int, entry_start) by {
                    lemma_serialized_layout(bytes@, wm, wp);
                    assert(param_flat(wp.take(k as int)) == wire_of_params(rp).map_values(
                        |p: (Seq<char>, Seq<i64>, Seq<u32>)| param_entry_bytes(p),
                    ).flatten());
                    lemma_param_alignment(bytes@, wm, wp, k as int, entry_start);
                }
            }
            let name = match read_string(bytes, &mut pos) {
                Err(e) => {
                    proof {
                        assert forall|wm: Seq<(Seq<char>, Seq<char>)>, wp: Seq<(Seq<char>, Seq<i64>, Seq<u32>)>|
                            #[trigger] is_serialization_of(bytes@, wm, wp) implies false by {
                            assert(param_aligned(bytes@, wp, k as int, entry_start));
                            assert(str_block_at(bytes@, entry_start, wp[k as int].0));
                        }
                    }
                    return Err(e);
                },
                Ok(v) => v,
            };
            let ghost q0 = pos as int;
            proof {
                assert forall|wm: Seq<(Seq<char>, Seq<char>)>, wp: Seq<(Seq<char>, Seq<i64>, Seq<u32>)>|
                    #[trigger] is_serialization_of(bytes@, wm, wp) implies name@ == wp[k as int].0
                    && q0 == entry_start + 4 + encode_utf8(wp[k as int].0).len() by {
                    assert(param_aligned(bytes@, wp, k as int, entry_start));
                    lemma_same_block(bytes@, entry_start, name@, wp[k as int].0);
                }
            }
            let shape_len = match read_u32(bytes, &mut pos) {
                Err(e) => {
                    proof {
                        assert forall|wm: Seq<(Seq<char>, Seq<char>)>, wp: Seq<(Seq<char>, Seq<i64>, Seq<u32>)>|
                            #[trigger] is_serialization_of(bytes@, wm, wp) implies false by {
                            assert(param_aligned(bytes@, wp, k as int, entry_start));
                            assert(q0 == entry_start + 4 + encode_utf8(wp[k as int].0).len());
                            assert(q0 + 4 <= bytes@.len());
                        }
                    }
                    return Err(e);
                },
                Ok(v) => v,
            };
            let ghost dims_start = pos as int;
            proof {
                assert forall|wm: Seq<(Seq<char>, Seq<char>)>, wp: Seq<(Seq<char>, Seq<i64>, Seq<u32>)>|
                    #[trigger] is_serialization_of(bytes@, wm, wp) implies shape_len as int
                    == wp[k as int].1.len() by {
                    assert(param_aligned(bytes@, wp, k as int, entry_start));
                    assert(q0 == entry_start + 4 + encode_utf8(wp[k as int].0).len());
                    lemma_count_bytes(bytes@, q0, wp[k as int].1.len(), shape_len);
                }
            }
            let shape = match read_i64_block(bytes, &mut pos, shape_len) {
                Err(e) => {
                    proof {
                        assert forall|wm: Seq<(Seq<char>, Seq<char>)>, wp: Seq<(Seq<char>, Seq<i64>, Seq<u32>)>|
                            #[trigger] is_serialization_of(bytes@, wm, wp) implies false by {
                            assert(param_aligned(bytes@, wp, k as int, entry_start));
                            assert(q0 == entry_start + 4 + encode_utf8(wp[k as int].0).len());
                            assert(shape_len as int == wp[k as int].1.len());
                            assert(dims_start + 8 * (shape_len as int) <= bytes@.len());
                        }
                    }
                    return Err(e);
                },
                Ok(v) => v,
            };
            let data_len = match read_u32(bytes, &mut pos) {
                Err(e) => {
                    proof {
                        assert forall|wm: Seq<(Seq<char>, Seq<char>)>, wp: Seq<(Seq<char>, Seq<i64>, Seq<u32>)>|
                            #[trigger] is_serialization_of(bytes@, wm, wp) implies false by {
                            assert(param_aligned(bytes@, wp, k as int, entry_start));
                            assert(q0 == entry_start + 4 + encode_utf8(wp[k as int].0).len());
                            assert(shape_len as int == wp[k as int].1.len());
                            assert(pos + 4 <= bytes@.len());
                        }
                    }
                    return Err(e);
                },
                Ok(v) => v,
            };
            let ghost data_start = pos as int;
            proof {
                assert forall|wm: Seq<(Seq<char>, Seq<char>)>, wp: Seq<(Seq<char>, Seq<i64>, Seq<u32>)>|
                    #[trigger] is_serialization_of(bytes@, wm, wp) implies data_len as int
                    == wp[k as int].2.len() && shape@ == wp[k as int].1 by {
                    assert(param_aligned(bytes@, wp, k as int, entry_start));
                    assert(q0 == entry_start + 4 + encode_utf8(wp[k as int].0).len());
                    assert(shape_len as int == wp[k as int].1.len());
                    let q1 = q0 + 4 + 8 * (shape_len as int);
                    assert(bytes@.subrange(q0 + 4, q0 + 4 + 8 * (shape_len as int))
                        == bytes_of_elems(wp[k as int].1));
                    assert(bytes@.subrange(q0 + 4, q0 + 4 + 8 * (shape_len as int))
                        == bytes_of_elems(shape@));
                    crate::tensor::dtype::lemma_bytes_of_elems_injective::<i64>(
                        shape@,
                        wp[k as int].1,
                    );
                    lemma_count_bytes(bytes@, q1, wp[k as int].2.len(), data_len);
                }
            }
            let data = match read_f32_block(bytes, &mut pos, data_len) {
                Err(e) => {
                    proof {
                        assert forall|wm: Seq<(Seq<char>, Seq<char>)>, wp: Seq<(Seq<char>, Seq<i64>, Seq<u32>)>|
                            #[trigger] is_serialization_of(bytes@, wm, wp) implies false by {
                            assert(param_aligned(bytes@, wp, k as int, entry_start));
                            assert(q0 == entry_start + 4 + encode_utf8(wp[k as int].0).len());
                            assert(shape_len as int == wp[k as int].1.len());
                            assert(data_len as int == wp[k as int].2.len());
                            assert(data_start + 4 * (data_len as int) <= bytes@.len());
                        }
                    }
                    return Err(e);
                },
                Ok(v) => v,
            };
            let options = Options::default();
            let tensor = match TensorImpl::new_from_data(data.as_slice(), shape.as_slice(), options)
                {
                Err(_) => {
                    proof {
                        assert forall|wm: Seq<(Seq<char>, Seq<char>)>, wp: Seq<(Seq<char>, Seq<i64>, Seq<u32>)>|
                            #[trigger] is_serialization_of(bytes@, wm, wp) implies false by {
                            assert(shape@ == wp[k as int].1);
                            assert(data_len as int == wp[k as int].2.len());
                            assert(TensorImpl::can_allocate(
                                shape@,
                                crate::tensor::options::default_options(),
                            ));
                        }
                    }
                    return Err("Failed to create tensor from checkpoint data".to_owned());
                },
                Ok(impl_) => {
                    proof {
                        crate::tensor::tensor::lemma_f32_data_of_elems(&impl_, data@);
                    }
                    Tensor { impl_: Some(std::rc::Rc::new(impl_)) }
                },
            };
            let ghost olds = state.spec_parameters();
            let ghost tensor_snapshot = tensor;
            state.add_parameter(name, tensor);
            proof {
                lemma_insert_agrees(olds, state.spec_parameters(), name, tensor_snapshot);
                let triple = (name@, shape@, data@);
                assert(tensor_wire_data(tensor_snapshot) == data@);
                vstd::bytes::lemma_auto_spec_u32_to_from_le_bytes();
                crate::tensor::dtype::lemma_bytes_of_elems_len::<i64>(shape@);
                crate::tensor::dtype::lemma_bytes_of_elems_len::<u32>(data@);
                assert(bytes@.subrange(q0, dims_start).len() == 4);
                assert(bytes@.subrange(q0, dims_start) == spec_u32_to_le_bytes(shape_len));
                assert(bytes@.subrange(data_start - 4, data_start).len() == 4);
                assert(bytes@.subrange(data_start - 4, data_start) == spec_u32_to_le_bytes(
                    data_len,
                ));
                assert(shape@.len() as u32 == shape_len);
                assert(data@.len() as u32 == data_len);
                assert(bytes@.subrange(entry_start, pos as int) =~= bytes@.subrange(
                    entry_start,
                    q0,
                ) + bytes@.subrange(q0, dims_start) + bytes@.subrange(dims_start, data_start - 4)
                    + bytes@.subrange(data_start - 4, data_start) + bytes@.subrange(
                    data_start,
                    pos as int,
                ));
                assert(bytes@.subrange(entry_start, pos as int) == param_entry_bytes(triple));
                let done = wire_of_params(rp).map_values(
                    |p: (Seq<char>, Seq<i64>, Seq<u32>)| param_entry_bytes(p),
                );
                assert(bytes@.subrange(meta_end + 4, pos as int) =~= bytes@.subrange(
                    meta_end + 4,
                    entry_start,
                ) + bytes@.subrange(entry_start, pos as int));
                crate::tensor::dtype::lemma_flatten_push(done, param_entry_bytes(triple));
                let rp_old = rp;
                rp = rp.push((name, tensor_snapshot));
                assert(rp.drop_last() =~= rp_old);
                assert(wire_of_params(rp) =~= wire_of_params(rp_old).push(triple));
                assert(wire_of_params(rp).map_values(
                    |p: (Seq<char>, Seq<i64>, Seq<u32>)| param_entry_bytes(p),
                ) =~= done.push(param_entry_bytes(triple)));
                assert(bytes@.subrange(meta_end + 4, pos as int) == wire_of_params(rp).map_values(
                    |p: (Seq<char>, Seq<i64>, Seq<u32>)| param_entry_bytes(p),
                ).flatten());
                assert(spec_insert_all(rp) == spec_insert(
                    spec_insert_all(rp.drop_last()),
                    name,
                    tensor_snapshot,
                ));
                assert(state.spec_parameters() == spec_insert_all(rp));
                assert forall|wm: Seq<(Seq<char>, Seq<char>)>, wp: Seq<(Seq<char>, Seq<i64>, Seq<u32>)>|
                    #[trigger] is_serialization_of(bytes@, wm, wp) implies k + 1 <= wp.len()
                    && wire_of_params(rp) == wp.take(k + 1) by {
                    assert(name@ == wp[k as int].0);
                    assert(shape@ == wp[k as int].1);
                    assert(param_aligned(bytes@, wp, k as int, entry_start));
                    assert(q0 == entry_start + 4 + encode_utf8(wp[k as int].0).len());
                    assert(data_len as int == wp[k as int].2.len());
                    assert(bytes@.subrange(
                        q0 + 8 + 8 * (shape_len as int),
                        q0 + 8 + 8 * (shape_len as int) + 4 * (data_len as int),
                    ) == bytes_of_elems(wp[k as int].2));
                    assert(data_start == q0 + 8 + 8 * (shape_len as int));
                    assert(bytes@.subrange(data_start, data_start + 4 * (data_len as int))
                        == bytes_of_elems(data@));
                    crate::tensor::dtype::lemma_bytes_of_elems_injective::<u32>(
                        data@,
                        wp[k as int].2,
                    );
                    assert(triple == wp[k as int]);
                    assert(wire_of_params(rp_old) == wp.take(k as int));
                    assert(wp.take(k + 1) =~= wp.take(k as int).push(wp[k as int]));
                    assert(wire_of_params(rp) =~= wp.take(k + 1));
                }
            }
            k += 1;
        }
        proof {
            vstd::bytes::lemma_auto_spec_u32_to_from_le_bytes();
            assert(bytes@.subrange(8, 12).len() == 4);
            assert(bytes@.subrange(8, 12) == spec_u32_to_le_bytes(metadata_count));
            assert(bytes@.subrange(meta_end, meta_end + 4).len() == 4);
            assert(bytes@.subrange(meta_end, meta_end + 4) == spec_u32_to_le_bytes(param_count));
            assert(wire_of_meta(rm).len() as u32 == metadata_count);
            assert(wire_of_params(rp).len() as u32 == param_count);
            assert(bytes@.subrange(0, pos as int) =~= bytes@.subrange(0, 8) + bytes@.subrange(
                8,
                12,
            ) + bytes@.subrange(12, meta_end) + bytes@.subrange(meta_end, meta_end + 4)
                + bytes@.subrange(meta_end + 4, pos as int));
            assert(bytes@.subrange(0, pos as int) == serialized_bytes(
                wire_of_meta(rm),
                wire_of_params(rp),
            ));
        }
        Ok(state)
    }
}

/// Appends the little-endian bytes of a u32.
fn push_u32(out: &mut Vec<u8>, x: u32)
    ensures
        final(out)@ == old(out)@ + spec_u32_to_le_bytes(x),
{
    let mut b = u32_to_le_bytes(x);
    out.append(&mut b);
}

/// Appends a length-prefixed UTF-8 string block; false when the byte
/// length does not fit a u32 field (the buffer is then unchanged).
fn push_str_block(out: &mut Vec<u8>, s: &str) -> (ok: bool)
    ensures
        ok == (encode_utf8(s@).len() <= u32::MAX),
        ok ==> final(out)@ == old(out)@ + str_block(s@),
        !ok ==> final(out)@ == old(out)@,
{
    let b = s.as_bytes();
    if b.len() as u64 > u32::MAX as u64 {
        return false;
    }
    push_u32(out, b.len() as u32);
    let n = b.len();
    let mut i: usize = 0;
    while i < n
        invariant
            n == b@.len(),
            i <= n,
            out@ == old(out)@ + spec_u32_to_le_bytes(b@.len() as u32) + b@.take(i as int),
        decreases n - i,
    {
        out.push(b[i]);
        proof {
            assert(b@.take(i + 1) =~= b@.take(i as int).push(b@[i as int]));
            assert(out@ =~= old(out)@ + spec_u32_to_le_bytes(b@.len() as u32) + b@.take(i + 1));
        }
        i += 1;
    }
    proof {
        assert(b@.take(n as int) =~= b@);
        assert(out@ =~= old(out)@ + str_block(s@));
    }
    true
}

/// Reads a little-endian u32 at the cursor, advancing it.
fn read_u32(bytes: &[u8], pos: &mut usize) -> (r: Result<u32, String>)
    ensures
        r is Ok <==> old(pos) + 4 <= bytes@.len(),
        r matches Ok(v) ==> *final(pos) == *old(pos) + 4 && v == spec_u32_from_le_bytes(
            bytes@.subrange(*old(pos) as int, *old(pos) + 4),
        ),
        r is Err ==> *final(pos) == *old(pos),
{
    let n = bytes.len();
    if *pos > n || n - *pos < 4 {
        return Err("Failed to read checkpoint field".to_owned());
    }
    let sub = vstd::slice::slice_subrange(bytes, *pos, *pos + 4);
    let v = vstd::bytes::u32_from_le_bytes(sub);
    *pos = *pos + 4;
    Ok(v)
}

/// Reads one little-endian Float32 bit pattern at the cursor.
fn read_f32_bits(bytes: &[u8], pos: &mut usize) -> (r: Result<u32, String>)
    ensures
        r is Ok <==> old(pos) + 4 <= bytes@.len(),
        r matches Ok(v) ==> *final(pos) == *old(pos) + 4 && v.spec_to_bytes() == bytes@.subrange(
            *old(pos) as int,
            *old(pos) + 4,
        ),
        r is Err ==> *final(pos) == *old(pos),
{
    let n = bytes.len();
    if *pos > n || n - *pos < 4 {
        return Err("Failed to read checkpoint field".to_owned());
    }
    let v = <u32 as Element>::read_at(bytes, *pos);
    *pos = *pos + 4;
    Ok(v)
}

/// Reads one little-endian i64 at the cursor.
fn read_i64(bytes: &[u8], pos: &mut usize) -> (r: Result<i64, String>)
    ensures
        r is Ok <==> old(pos) + 8 <= bytes@.len(),
        r matches Ok(v) ==> *final(pos) == *old(pos) + 8 && v.spec_to_bytes() == bytes@.subrange(
            *old(pos) as int,
            *old(pos) + 8,
        ),
        r is Err ==> *final(pos) == *old(pos),
{
    let n = bytes.len();
    if *pos > n || n - *pos < 8 {
        return Err("Failed to read checkpoint field".to_owned());
    }
    let v = <i64 as Element>::read_at(bytes, *pos);
    *pos = *pos + 8;
    Ok(v)
}

/// Relies on std's `String::from_utf8`: it succeeds exactly on valid UTF-8
/// input and decodes it to the corresponding characters.
#[verifier::external_body]
fn bytes_to_string(v: Vec<u8>) -> (r: Result<String, String>)
    ensures
        r matches Ok(s) ==> valid_utf8(v@) && s@ == decode_utf8(v@),
        r is Err <==> !valid_utf8(v@),
{
    match String::from_utf8(v) {
        Ok(s) => Ok(s),
        Err(_) => Err("Invalid UTF-8 in checkpoint data".to_owned()),
    }
}

/// Reads a length-prefixed UTF-8 string block at the cursor.
/// A length-prefixed UTF-8 block encoding the characters `s` sits at
/// byte position `pos`.
pub open spec fn str_block_at(bytes: Seq<u8>, pos: int, s: Seq<char>) -> bool {
    &&& encode_utf8(s).len() <= u32::MAX
    &&& pos + 4 + encode_utf8(s).len() <= bytes.len()
    &&& bytes.subrange(pos, pos + 4 + encode_utf8(s).len()) == str_block(s)
}

fn read_string(bytes: &[u8], pos: &mut usize) -> (r: Result<String, String>)
    ensures
        r matches Ok(s) ==> *final(pos) <= bytes@.len() && *old(pos) + 4 <= *final(pos)
            && bytes@.subrange(*old(pos) as int, *final(pos) as int) == str_block(s@) && *final(pos) == *old(pos) + 4 + encode_utf8(s@).len() && encode_utf8(s@).len() <= u32::MAX,
        r is Err ==> *final(pos) == *old(pos),
        forall|s: Seq<char>| #[trigger]
            str_block_at(bytes@, *old(pos) as int, s) ==> r is Ok,
{
    let ghost start = *pos;
    let len32 = match read_u32(bytes, pos) {
        Err(e) => {
            proof {
                assert forall|s: Seq<char>| #[trigger]
                    str_block_at(bytes@, start as int, s) implies false by {
                    assert(start + 4 <= bytes@.len());
                }
            }
            return Err(e);
        },
        Ok(v) => v,
    };
    let len = len32 as usize;
    let n = bytes.len();
    proof {
        assert forall|s: Seq<char>| #[trigger]
            str_block_at(bytes@, start as int, s) implies len == encode_utf8(s).len() by {
            lemma_block_length(bytes@, start as int, s, len32);
        }
    }
    if *pos > n || n - *pos < len {
        *pos = *pos - 4;
        proof {
            assert forall|s: Seq<char>| #[trigger]
                str_block_at(bytes@, start as int, s) implies false by {
                assert(len == encode_utf8(s).len());
                assert(start + 4 + encode_utf8(s).len() <= bytes@.len());
            }
        }
        return Err("Failed to read checkpoint string".to_owned());
    }
    let mut buf: Vec<u8> = Vec::new();
    let mut i: usize = 0;
    while i < len
        invariant
            n == bytes@.len(),
            *pos + len <= n,
            start + 4 == *pos,
            i <= len,
            buf@ == bytes@.subrange(*pos as int, *pos + i),
        decreases len - i,
    {
        buf.push(bytes[*pos + i]);
        proof {
            assert(bytes@.subrange(*pos as int, *pos + (i + 1)) =~= bytes@.subrange(
                *pos as int,
                *pos + i,
            ).push(bytes@[*pos + i]));
        }
        i += 1;
    }
    let s = match bytes_to_string(buf) {
        Err(e) => {
            *pos = *pos - 4;
            proof {
                assert forall|sc: Seq<char>| #[trigger]
                    str_block_at(bytes@, start as int, sc) implies false by {
                    assert(len == encode_utf8(sc).len());
                    assert(bytes@.subrange(start + 4, start + 4 + len) =~= bytes@.subrange(
                        start as int,
                        start + 4 + encode_utf8(sc).len(),
                    ).subrange(4, 4 + encode_utf8(sc).len() as int));
                    vstd::bytes::lemma_auto_spec_u32_to_from_le_bytes();
                    assert(spec_u32_to_le_bytes(encode_utf8(sc).len() as u32).len() == 4);
                    assert(str_block(sc).subrange(4, 4 + encode_utf8(sc).len() as int) =~= encode_utf8(
                        sc,
                    ));
                    vstd::utf8::encode_utf8_valid_utf8(sc);
                    assert(valid_utf8(bytes@.subrange(start + 4, start + 4 + len)));
                }
            }
            return Err(e);
        },
        Ok(s) => s,
    };
    proof {
        encode_utf8_decode_utf8_bytes(bytes@.subrange(*pos as int, *pos + len));
    }
    let ghost body_start = *pos;
    *pos = *pos + len;
    proof {
        assert(bytes@.subrange(start as int, *pos as int) =~= bytes@.subrange(
            start as int,
            start + 4,
        ) + bytes@.subrange(body_start as int, body_start + len));
        assert(bytes@.subrange(start as int, start + 4) == spec_u32_to_le_bytes(len32)) by {
            vstd::bytes::lemma_auto_spec_u32_to_from_le_bytes();
            assert(bytes@.subrange(start as int, start + 4).len() == 4);
        }
        assert(encode_utf8(s@) == bytes@.subrange(body_start as int, body_start + len));
        assert(encode_utf8(s@).len() == len32);
    }
    Ok(s)
}

/// The four bytes in front of a string block pin the block's length.
proof fn lemma_block_length(bytes: Seq<u8>, start: int, s: Seq<char>, len32: u32)
    requires
        str_block_at(bytes, start, s),
        0 <= start,
        start + 4 <= bytes.len(),
        len32 == spec_u32_from_le_bytes(bytes.subrange(start, start + 4)),
    ensures
        len32 == encode_utf8(s).len(),
{
    vstd::bytes::lemma_auto_spec_u32_to_from_le_bytes();
    assert(bytes.subrange(start, start + 4) =~= bytes.subrange(
        start,
        start + 4 + encode_utf8(s).len(),
    ).subrange(0, 4));
    assert(str_block(s).subrange(0, 4) =~= spec_u32_to_le_bytes(encode_utf8(s).len() as u32)) by {
        assert(spec_u32_to_le_bytes(encode_utf8(s).len() as u32).len() == 4);
    }
    assert(bytes.subrange(start, start + 4) == spec_u32_to_le_bytes(encode_utf8(s).len() as u32));
    assert(spec_u32_from_le_bytes(spec_u32_to_le_bytes(encode_utf8(s).len() as u32))
        == encode_utf8(s).len() as u32);
}


/// Two string blocks starting at the same position hold the same string:
/// the four length bytes pin the extent, the body bytes pin the encoding,
/// and decoding pins the characters.
proof fn lemma_same_block(bytes: Seq<u8>, pos: int, s1: Seq<char>, s2: Seq<char>)
    requires
        encode_utf8(s1).len() <= u32::MAX,
        encode_utf8(s2).len() <= u32::MAX,
        0 <= pos,
        pos + 4 + encode_utf8(s1).len() <= bytes.len(),
        pos + 4 + encode_utf8(s2).len() <= bytes.len(),
        bytes.subrange(pos, pos + 4 + encode_utf8(s1).len() as int) == str_block(s1),
        bytes.subrange(pos, pos + 4 + encode_utf8(s2).len() as int) == str_block(s2),
    ensures
        s1 == s2,
        encode_utf8(s1).len() == encode_utf8(s2).len(),
{
    vstd::bytes::lemma_auto_spec_u32_to_from_le_bytes();
    let e1 = encode_utf8(s1).len() as int;
    let e2 = encode_utf8(s2).len() as int;
    assert(spec_u32_to_le_bytes(encode_utf8(s1).len() as u32).len() == 4);
    assert(spec_u32_to_le_bytes(encode_utf8(s2).len() as u32).len() == 4);
    assert(bytes.subrange(pos, pos + 4) =~= bytes.subrange(pos, pos + 4 + e1).subrange(0, 4));
    assert(bytes.subrange(pos, pos + 4) =~= bytes.subrange(pos, pos + 4 + e2).subrange(0, 4));
    assert(str_block(s1).subrange(0, 4) =~= spec_u32_to_le_bytes(encode_utf8(s1).len() as u32));
    assert(str_block(s2).subrange(0, 4) =~= spec_u32_to_le_bytes(encode_utf8(s2).len() as u32));
    assert(spec_u32_from_le_bytes(spec_u32_to_le_bytes(encode_utf8(s1).len() as u32))
        == encode_utf8(s1).len() as u32);
    assert(spec_u32_from_le_bytes(spec_u32_to_le_bytes(encode_utf8(s2).len() as u32))
        == encode_utf8(s2).len() as u32);
    assert(e1 == e2);
    assert(encode_utf8(s1) =~= bytes.subrange(pos, pos + 4 + e1).subrange(4, 4 + e1));
    assert(encode_utf8(s2) =~= bytes.subrange(pos, pos + 4 + e2).subrange(4, 4 + e2));
    assert(encode_utf8(s1) == encode_utf8(s2));
    vstd::utf8::encode_utf8_decode_utf8(s1);
    vstd::utf8::encode_utf8_decode_utf8(s2);
}

/// Reads `count` little-endian i64 values at the cursor; succeeds exactly
/// when that many bytes remain.
fn read_i64_block(bytes: &[u8], pos: &mut usize, count: u32) -> (r: Result<Vec<i64>, String>)
    ensures
        r is Ok <==> *old(pos) + 8 * (count as int) <= bytes@.len(),
        r matches Ok(v) ==> v@.len() == count && *final(pos) == *old(pos) + 8 * (count as int)
            && bytes@.subrange(*old(pos) as int, *final(pos) as int) == bytes_of_elems(v@),
        r is Err ==> *final(pos) == *old(pos),
{
    let n = bytes.len();
    let need = (count as usize).checked_mul(8);
    let total = match need {
        None => {
            proof {
                assert(8 * (count as int) > usize::MAX >= bytes@.len());
            }
            return Err("Failed to read checkpoint field".to_owned());
        },
        Some(v) => v,
    };
    if *pos > n || n - *pos < total {
        return Err("Failed to read checkpoint field".to_owned());
    }
    let ghost start = *pos;
    let mut out: Vec<i64> = Vec::new();
    let mut d: u32 = 0;
    proof {
        assert(bytes_of_elems(out@) =~= Seq::<u8>::empty()) by {
            assert(out@.map_values(|e: i64| e.spec_to_bytes()) =~= Seq::<Seq<u8>>::empty());
        }
    }
    while d < count
        invariant
            n == bytes@.len(),
            start + total <= n,
            total == 8 * (count as int),
            d <= count,
            out@.len() == d,
            *pos == start + 8 * (d as int),
            bytes@.subrange(start as int, *pos as int) == bytes_of_elems(out@),
        decreases count - d,
    {
        let e = <i64 as Element>::read_at(bytes, *pos);
        proof {
            crate::tensor::dtype::lemma_bytes_of_elems_push(out@, e);
            assert(bytes@.subrange(start as int, *pos + 8) =~= bytes@.subrange(
                start as int,
                *pos as int,
            ) + bytes@.subrange(*pos as int, *pos + 8));
        }
        out.push(e);
        *pos = *pos + 8;
        d += 1;
    }
    Ok(out)
}

/// Reads `count` little-endian Float32 bit patterns at the cursor;
/// succeeds exactly when that many bytes remain.
fn read_f32_block(bytes: &[u8], pos: &mut usize, count: u32) -> (r: Result<Vec<u32>, String>)
    ensures
        r is Ok <==> *old(pos) + 4 * (count as int) <= bytes@.len(),
        r matches Ok(v) ==> v@.len() == count && *final(pos) == *old(pos) + 4 * (count as int)
            && bytes@.subrange(*old(pos) as int, *final(pos) as int) == bytes_of_elems(v@),
        r is Err ==> *final(pos) == *old(pos),
{
    let n = bytes.len();
    let need = (count as usize).checked_mul(4);
    let total = match need {
        None => {
            proof {
                assert(4 * (count as int) > usize::MAX >= bytes@.len());
            }
            return Err("Failed to read checkpoint field".to_owned());
        },
        Some(v) => v,
    };
    if *pos > n || n - *pos < total {
        return Err("Failed to read checkpoint field".to_owned());
    }
    let ghost start = *pos;
    let mut out: Vec<u32> = Vec::new();
    let mut d: u32 = 0;
    proof {
        assert(bytes_of_elems(out@) =~= Seq::<u8>::empty()) by {
            assert(out@.map_values(|e: u32| e.spec_to_bytes()) =~= Seq::<Seq<u8>>::empty());
        }
    }
    while d < count
        invariant
            n == bytes@.len(),
            start + total <= n,
            total == 4 * (count as int),
            d <= count,
            out@.len() == d,
            *pos == start + 4 * (d as int),
            bytes@.subrange(start as int, *pos as int) == bytes_of_elems(out@),
        decreases count - d,
    {
        let e = <u32 as Element>::read_at(bytes, *pos);
        proof {
            crate::tensor::dtype::lemma_bytes_of_elems_push(out@, e);
            assert(bytes@.subrange(start as int, *pos + 4) =~= bytes@.subrange(
                start as int,
                *pos as int,
            ) + bytes@.subrange(*pos as int, *pos + 4));
        }
        out.push(e);
        *pos = *pos + 4;
        d += 1;
    }
    Ok(out)
}

/// On valid UTF-8 bytes, re-encoding the decoded characters gives the
/// bytes back.
proof fn encode_utf8_decode_utf8_bytes(b: Seq<u8>)
    requires
        valid_utf8(b),
    ensures
        encode_utf8(decode_utf8(b)) == b,
{
    vstd::utf8::decode_utf8_encode_utf8(b);
}

} // verus!
