//! Where operations execute.
use vstd::prelude::*;
use crate::device::error::DeviceError;
use crate::device::submission::Submission;
use crate::device::submission;

verus! {

/// The number of a device.
pub type DeviceOrdinal = usize;

/// A device.
#[derive(Clone, Copy, Debug, PartialEq, Eq, Structural)]
pub struct Device {
    pub ordinal: usize,
}

/// A stream of a device.
#[derive(Clone, Copy, Debug, PartialEq, Eq, Structural)]
pub struct Stream {
    pub handle: u64,
    pub device: Device,
}

/// A memory pool.
#[derive(Clone, Copy, Debug, PartialEq, Eq, Structural)]
pub struct MemPool {
    pub handle: u64,
}

/// A stream, its device and memory pool, and the submission that is made on it.
pub struct ExecutionContext<O, R> {
    pub ordinal: DeviceOrdinal,
    pub cuda_stream: Stream,
    pub device: Device,
    pub pool: Option<MemPool>,
    pub submission: Submission<O, R>,
    pub recording: bool,
}

/// A context for a stream, with a new submission.
pub open spec fn is_fresh<O, R>(
    c: ExecutionContext<O, R>,
    stream: Stream,
    pool: Option<MemPool>,
    recording: bool,
) -> bool {
    &&& c.cuda_stream == stream
    &&& c.device == stream.device
    &&& c.ordinal == stream.device.ordinal
    &&& c.pool == pool
    &&& c.recording == recording
    &&& c.submission.owners.held() == Some(Seq::<O>::empty())
    &&& c.submission.recorded@ == Seq::<R>::empty()
}

impl<O, R> ExecutionContext<O, R> {
    /// A context for a stream and the memory pool that goes with it.
    pub fn new(cuda_stream: Stream, pool: Option<MemPool>) -> (c: ExecutionContext<O, R>)
        ensures
            is_fresh(c, cuda_stream, pool, false),
    {
        ExecutionContext {
            ordinal: cuda_stream.device.ordinal,
            cuda_stream,
            device: cuda_stream.device,
            pool,
            submission: Submission::new(),
            recording: false,
        }
    }

    /// A context that records a graph.
    pub fn for_capture(stream: Stream, pool: Option<MemPool>) -> (c: ExecutionContext<O, R>)
        ensures
            is_fresh(c, stream, pool, true),
    {
        let mut c = ExecutionContext::new(stream, pool);
        c.recording = true;
        c
    }

    /// The same stream, device and pool with a submission of its own: when it
    /// completes, nothing of this one is released.
    pub fn fresh_submission(&self) -> (c: ExecutionContext<O, R>)
        ensures
            c.ordinal == self.ordinal,
            c.cuda_stream == self.cuda_stream,
            c.device == self.device,
            c.pool == self.pool,
            !c.recording,
            c.submission.owners.held() == Some(Seq::<O>::empty()),
            c.submission.recorded@ == Seq::<R>::empty(),
    {
        ExecutionContext {
            ordinal: self.ordinal,
            cuda_stream: self.cuda_stream,
            device: self.device,
            pool: self.pool,
            submission: Submission::new(),
            recording: false,
        }
    }

    /// The stream.
    pub fn get_cuda_stream(&self) -> (s: &Stream)
        ensures
            *s == self.cuda_stream,
    {
        &self.cuda_stream
    }

    /// The device.
    pub fn device(&self) -> (d: &Device)
        ensures
            *d == self.device,
    {
        &self.device
    }

    /// The number of the device.
    pub fn get_device_id(&self) -> (n: DeviceOrdinal)
        ensures
            n == self.ordinal,
    {
        self.ordinal
    }

    /// The memory pool, where one is set.
    pub fn get_pool(&self) -> (p: Option<&MemPool>)
        ensures
            match p {
                Some(x) => self.pool == Some(*x),
                None => self.pool is None,
            },
    {
        self.pool.as_ref()
    }

    /// Whether a graph is being recorded.
    pub fn is_recording(&self) -> (r: bool)
        ensures
            r == self.recording,
    {
        self.recording
    }

    /// Hold an owner until the submission completes; a submission that has
    /// completed takes no more.
    pub fn retain(&mut self, owner: O) -> (r: Result<(), DeviceError>)
        ensures
            final(self).same_place(old(self)),
            final(self).submission.recorded == old(self).submission.recorded,
            match old(self).submission.owners.held() {
                Some(s) => r is Ok && final(self).submission.owners.held() == Some(s.push(owner)),
                None => {
                    &&& r is Err
                    &&& r->Err_0@ == submission::already_completed()
                    &&& final(self).submission.owners.held() is None
                },
            },
    {
        self.submission.retain(owner)
    }

    /// Keep a graph's resource without claiming that it has been accessed.
    pub fn record_resource(&mut self, resource: R)
        requires
            old(self).recording,
        ensures
            final(self).same_place(old(self)),
            final(self).submission.owners == old(self).submission.owners,
            final(self).submission.recorded@ == old(self).submission.recorded@.push(resource),
    {
        self.submission.record(resource);
    }

    /// Release the owners: the work has finished.
    pub fn complete(&mut self)
        ensures
            final(self).same_place(old(self)),
            final(self).submission.owners.held() is None,
            final(self).submission.recorded == old(self).submission.recorded,
    {
        self.submission.complete();
    }

    /// Everything but the submission is the same.
    pub open spec fn same_place(&self, other: &ExecutionContext<O, R>) -> bool {
        &&& self.ordinal == other.ordinal
        &&& self.cuda_stream == other.cuda_stream
        &&& self.device == other.device
        &&& self.pool == other.pool
        &&& self.recording == other.recording
    }
}

} // verus!
