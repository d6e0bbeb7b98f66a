use vstd::prelude::*;
use crate::status::{CUresult, CudaError, CUDA_ERROR_ALREADY_ACQUIRED};

verus! {

/// The ordinals whose devices are open in this process, each at most once.
/// A device is opened only while its ordinal is not here.
pub struct OpenDevices {
    ordinals: Vec<usize>,
}

impl View for OpenDevices {
    type V = Seq<usize>;

    closed spec fn view(&self) -> Seq<usize> {
        self.ordinals@
    }
}

impl OpenDevices {
    pub open spec fn is_open(&self, ordinal: usize) -> bool {
        self@.contains(ordinal)
    }

    /// No ordinal is recorded twice.
    pub open spec fn wf(&self) -> bool {
        self@.no_duplicates()
    }

    /// No device open.
    pub fn new() -> (r: OpenDevices)
        ensures
            r.wf(),
            forall|o: usize| !r.is_open(o),
    {
        let r = OpenDevices { ordinals: Vec::new() };
        proof {
            assert(r@ =~= Seq::<usize>::empty());
        }
        r
    }

    fn find(&self, ordinal: usize) -> (r: Option<usize>)
        ensures
            r matches Some(i) ==> i < self@.len() && self@[i as int] == ordinal,
            r is None ==> !self.is_open(ordinal),
    {
        let mut i: usize = 0;
        while i < self.ordinals.len()
            invariant
                0 <= i <= self@.len(),
                forall|j: int| 0 <= j < i ==> self@[j] != ordinal,
            decreases self@.len() - i,
        {
            if self.ordinals[i] == ordinal {
                return Some(i);
            }
            i = i + 1;
        }
        None
    }

    pub fn contains(&self, ordinal: usize) -> (r: bool)
        ensures
            r == self.is_open(ordinal),
    {
        self.find(ordinal).is_some()
    }

    /// Records `ordinal` as open. An ordinal already open is refused with the
    /// already-acquired status, and nothing changes.
    pub fn claim(&mut self, ordinal: usize) -> (r: Result<(), CudaError>)
        requires
            old(self).wf(),
        ensures
            final(self).wf(),
            old(self).is_open(ordinal) ==> r == Err::<(), CudaError>(
                CudaError(CUresult { code: CUDA_ERROR_ALREADY_ACQUIRED }),
            ) && final(self)@ == old(self)@,
            !old(self).is_open(ordinal) ==> r is Ok && forall|o: usize|
                #[trigger] final(self).is_open(o) == (old(self).is_open(o) || o == ordinal),
    {
        if self.contains(ordinal) {
            return Err(CudaError(CUresult { code: CUDA_ERROR_ALREADY_ACQUIRED }));
        }
        let ghost s0 = self@;
        self.ordinals.push(ordinal);
        proof {
            assert(self@ == s0.push(ordinal));
            assert forall|o: usize| #[trigger] self.is_open(o) == (s0.contains(o) || o == ordinal) by {
                if s0.contains(o) {
                    let j = choose|j: int| 0 <= j < s0.len() && s0[j] == o;
                    assert(self@[j] == o);
                }
                if o == ordinal {
                    assert(self@[s0.len() as int] == o);
                }
                if self.is_open(o) && o != ordinal {
                    let j = choose|j: int| 0 <= j < self@.len() && self@[j] == o;
                    assert(j < s0.len());
                    assert(s0[j] == o);
                }
            }
        }
        Ok(())
    }

    /// Forgets `ordinal`: its device is closed, or its opening failed.
    pub fn release(&mut self, ordinal: usize)
        requires
            old(self).wf(),
        ensures
            final(self).wf(),
            forall|o: usize| #[trigger] final(self).is_open(o) == (old(self).is_open(o) && o != ordinal),
    {
        let ghost s0 = self@;
        match self.find(ordinal) {
            Some(i) => {
                self.ordinals.remove(i);
                proof {
                    let s1 = self@;
                    assert(s1 =~= s0.remove(i as int));
                    assert forall|a: int, b: int| 0 <= a < s1.len() && 0 <= b < s1.len() && a != b implies s1[a] != s1[b] by {
                        let a0 = if a < i { a } else { a + 1 };
                        let b0 = if b < i { b } else { b + 1 };
                        assert(s1[a] == s0[a0] && s1[b] == s0[b0]);
                    }
                    assert forall|o: usize| #[trigger] self.is_open(o) == (s0.contains(o) && o != ordinal) by {
                        if self.is_open(o) {
                            let j = choose|j: int| 0 <= j < s1.len() && s1[j] == o;
                            let j0 = if j < i { j } else { j + 1 };
                            assert(s0[j0] == o);
                            assert(j0 != i);
                            assert(o != ordinal);
                        }
                        if s0.contains(o) && o != ordinal {
                            let j = choose|j: int| 0 <= j < s0.len() && s0[j] == o;
                            assert(j != i);
                            let j1 = if j < i { j } else { j - 1 };
                            assert(s1[j1] == o);
                        }
                    }
                }
            },
            None => {},
        }
    }
}

} // verus!
