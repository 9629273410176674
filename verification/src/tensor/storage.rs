use vstd::prelude::*;
use crate::tensor::device::Device;

verus! {

/// The owned byte buffer behind one or more tensor views.
///
/// A `Storage` is created with a fixed positive size on a concrete device and
/// is never resized. Requests for a zero-sized buffer or for a non-CPU device
/// fail, so every live `Storage` is a non-empty CPU buffer; that is this
/// type's invariant.
#[derive(Debug)]
pub struct Storage {
    data: Vec<u8>,
    device: Device,
}

impl View for Storage {
    type V = Seq<u8>;

    closed spec fn view(&self) -> Seq<u8> {
        self.data@
    }
}

impl Storage {
    pub open spec fn wf(&self) -> bool {
        self@.len() > 0 && self.spec_device().spec_is_cpu()
    }

    pub closed spec fn spec_device(&self) -> Device {
        self.device
    }

    /// Allocates a zero-initialized buffer of `size` bytes. Fails exactly
    /// when `size` is zero or `device` is not the CPU.
    pub fn new(size: usize, device: Device) -> (r: Result<Self, String>)
        ensures
            r is Ok <==> size > 0 && device.spec_is_cpu(),
            r matches Ok(s) ==> {
                &&& s.wf()
                &&& s@ =~= Seq::new(size as nat, |i: int| 0u8)
                &&& s.spec_device() == device
            },
    {
        if size == 0 {
            return Err("Storage size cannot be zero".to_owned());
        }
        if !device.is_cpu() {
            return Err("CUDA storage not yet implemented".to_owned());
        }
        let mut data: Vec<u8> = Vec::new();
        let mut i: usize = 0;
        while i < size
            invariant
                i <= size,
                data@ =~= Seq::new(i as nat, |j: int| 0u8),
            decreases size - i,
        {
            data.push(0);
            i += 1;
        }
        Ok(Self { data, device })
    }

    pub fn size(&self) -> (r: usize)
        ensures
            r == self@.len(),
    {
        self.data.len()
    }

    pub fn device(&self) -> (r: Device)
        ensures
            r == self.spec_device(),
    {
        self.device
    }

    /// Read-only access to the underlying bytes.
    pub fn bytes(&self) -> (r: &Vec<u8>)
        ensures
            r@ == self@,
    {
        &self.data
    }

    /// Copies `src` over the front of the buffer. Fails exactly when `src`
    /// is longer than the buffer; the tail beyond `src` is unchanged.
    pub fn copy_from_slice(&mut self, src: &[u8]) -> (r: Result<(), String>)
        ensures
            r is Ok <==> src@.len() <= old(self)@.len(),
            final(self).spec_device() == old(self).spec_device(),
            final(self).wf() == old(self).wf(),
            r is Ok ==> final(self)@ =~= src@ + old(self)@.skip(src@.len() as int),
            r is Err ==> final(self)@ == old(self)@,
    {
        let n = src.len();
        if n > self.data.len() {
            return Err("Source data too large for storage".to_owned());
        }
        let mut i: usize = 0;
        while i < n
            invariant
                i <= n,
                n == src@.len(),
                n <= self.data@.len(),
                self.data@.len() == old(self)@.len(),
                self.device == old(self).device,
                self.data@ =~= src@.take(i as int) + old(self)@.skip(i as int),
            decreases n - i,
        {
            self.data.set(i, src[i]);
            proof {
                assert(self.data@ =~= src@.take(i + 1) + old(self)@.skip(i + 1));
            }
            i += 1;
        }
        proof {
            assert(src@.take(n as int) =~= src@);
        }
        Ok(())
    }

    /// Copies the front of the buffer into `dst`. Fails exactly when `dst`
    /// is longer than the buffer.
    pub fn copy_to_slice(&self, dst: &mut Vec<u8>) -> (r: Result<(), String>)
        ensures
            r is Ok <==> old(dst)@.len() <= self@.len(),
            r is Ok ==> final(dst)@ =~= self@.take(old(dst)@.len() as int),
            r is Err ==> final(dst)@ == old(dst)@,
    {
        let n = dst.len();
        if n > self.data.len() {
            return Err("Destination slice too large".to_owned());
        }
        let mut i: usize = 0;
        while i < n
            invariant
                i <= n,
                n == dst@.len(),
                n == old(dst)@.len(),
                n <= self.data@.len(),
                dst@ =~= self@.take(i as int) + old(dst)@.skip(i as int),
            decreases n - i,
        {
            dst.set(i, self.data[i]);
            proof {
                assert forall|j: int| 0 <= j < n implies dst@[j] == (self@.take(i + 1) + old(
                    dst,
                )@.skip(i + 1))[j] by {
                    if j < i {
                        assert(dst@[j] == self@.take(i as int)[j]);
                    } else if j > i {
                        assert(dst@[j] == old(dst)@.skip(i as int)[j - i]);
                    }
                }
                assert(dst@ =~= self@.take(i + 1) + old(dst)@.skip(i + 1));
            }
            i += 1;
        }
        proof {
            assert(old(dst)@.skip(n as int) =~= Seq::<u8>::empty());
            assert(dst@ =~= self@.take(n as int));
        }
        Ok(())
    }

    /// Allocates a fully independent buffer of the same size and bit-copies
    /// this one into it.
    pub fn clone(&self) -> (r: Result<Self, String>)
        requires
            self.wf(),
        ensures
            r matches Ok(s) ==> {
                &&& s.wf()
                &&& s@ == self@
                &&& s.spec_device() == self.spec_device()
            },
            r is Ok,
    {
        let n = self.data.len();
        let mut data: Vec<u8> = Vec::new();
        let mut i: usize = 0;
        while i < n
            invariant
                i <= n,
                n == self.data@.len(),
                data@ =~= self@.take(i as int),
            decreases n - i,
        {
            data.push(self.data[i]);
            i += 1;
            proof {
                assert(data@ =~= self@.take(i as int));
            }
        }
        proof {
            assert(self@.take(n as int) =~= self@);
        }
        Ok(Self { data, device: self.device })
    }
}

} // verus!
