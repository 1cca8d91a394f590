//! DevTools: the requests the DevTools UI sends, and the rolling window of
//! recent frame records that the profiler keeps.

use vstd::prelude::*;

verus! {

/// Messages from the DevTools UI to the engine.
#[derive(Debug, Clone)]
pub enum DevToolsRequest {
    /// Request a full tree snapshot.
    GetTree,
    /// Request layout overlay data.
    GetOverlay { highlight_node_id: Option<u64> },
    /// Request profiler summary.
    GetProfileSummary,
    /// Request recent frame records.
    GetFrames { count: Option<usize> },
    /// Start/stop IR recording.
    SetRecording { enabled: bool },
    /// Get recorded IR batches.
    GetRecording,
    /// Highlight a specific node.
    HighlightNode { node_id: u64 },
}

/// Where the frames asked for start among `len` recorded ones: the last
/// `count` of them (all of them when there are fewer, or when no count is
/// given).
pub fn recent_start(len: usize, count: Option<usize>) -> (r: usize)
    ensures
        r <= len,
        match count {
            Some(n) => r == if n < len { len - n } else { 0 },
            None => r == 0,
        },
{
    match count {
        Some(n) => len.saturating_sub(n),
        None => 0,
    }
}

/// The last `n` entries of `s` (all of `s` when it is shorter), oldest first.
pub open spec fn last_frames<T>(s: Seq<T>, n: nat) -> Seq<T> {
    if s.len() > n {
        s.subrange(s.len() - n, s.len() as int)
    } else {
        s
    }
}

/// The last frames recorded, at most `capacity` of them, oldest first, and
/// how many were ever recorded.
pub struct FrameWindow<T> {
    frames: Vec<T>,
    capacity: usize,
    total: u64,
}

impl<T> FrameWindow<T> {
    /// The kept frames, oldest first.
    pub closed spec fn kept(&self) -> Seq<T> {
        self.frames@
    }

    pub closed spec fn capacity(&self) -> nat {
        self.capacity as nat
    }

    /// How many frames were ever pushed.
    pub closed spec fn total(&self) -> nat {
        self.total as nat
    }

    pub closed spec fn wf(&self) -> bool {
        self.frames@.len() <= self.capacity
    }

    pub fn new(capacity: usize) -> (r: Self)
        ensures
            r.wf(),
            r.kept() == Seq::<T>::empty(),
            r.capacity() == capacity,
            r.total() == 0,
    {
        FrameWindow { frames: Vec::new(), capacity, total: 0 }
    }

    /// Record a frame; when the window is full the oldest frame leaves it. A
    /// window of capacity 0 keeps no frame but still counts the push.
    pub fn push(&mut self, frame: T)
        requires
            old(self).wf(),
            old(self).total() < u64::MAX,
        ensures
            final(self).wf(),
            final(self).capacity() == old(self).capacity(),
            final(self).total() == old(self).total() + 1,
            final(self).kept() == last_frames(old(self).kept().push(frame), old(self).capacity()),
    {
        self.total = self.total + 1;
        if self.capacity == 0 {
            assert(last_frames(old(self).kept().push(frame), 0) =~= Seq::<T>::empty());
            return;
        }
        let ghost all = self.frames@.push(frame);
        if self.frames.len() >= self.capacity {
            self.frames.remove(0);
        }
        self.frames.push(frame);
        assert(self.frames@ =~= last_frames(all, self.capacity as nat));
    }

    /// The kept frames, oldest first.
    pub fn frames(&self) -> (r: &[T])
        ensures
            r@ == self.kept(),
    {
        self.frames.as_slice()
    }

    /// How many frames the window keeps at most.
    pub fn capacity_limit(&self) -> (r: usize)
        ensures
            r == self.capacity(),
    {
        self.capacity
    }

    /// How many frames were ever pushed.
    pub fn total_frames(&self) -> (r: u64)
        ensures
            r == self.total(),
    {
        self.total
    }
}

/// The window keeps the most recent frames: after a push it never holds more
/// than its capacity, it drops at most the oldest frame, and, unless its
/// capacity is 0, the frame just pushed is its newest.
pub proof fn lemma_window_keeps_latest<T>(pre: FrameWindow<T>, post: FrameWindow<T>, frame: T)
    requires
        pre.wf(),
        post.capacity() == pre.capacity(),
        post.kept() == last_frames(pre.kept().push(frame), pre.capacity()),
    ensures
        post.kept().len() <= post.capacity(),
        pre.capacity() > 0 ==> post.kept().last() == frame,
        pre.capacity() > 0 ==> post.kept() == if pre.kept().len() >= pre.capacity() {
            pre.kept().drop_first().push(frame)
        } else {
            pre.kept().push(frame)
        },
        pre.capacity() == 0 ==> post.kept().len() == 0,
{
    if pre.capacity() > 0 && pre.kept().len() >= pre.capacity() {
        assert(post.kept() =~= pre.kept().drop_first().push(frame));
    }
}

} // verus!

verus! {

/// What a recorder of IR batches keeps: the batches recorded since recording
/// last started, and whether it is recording now.
pub struct BatchRecorder<T> {
    batches: Vec<T>,
    recording: bool,
}

impl<T> BatchRecorder<T> {
    pub closed spec fn recorded(&self) -> Seq<T> {
        self.batches@
    }

    pub closed spec fn is_on(&self) -> bool {
        self.recording
    }

    pub fn new() -> (r: Self)
        ensures
            r.recorded() == Seq::<T>::empty(),
            !r.is_on(),
    {
        BatchRecorder { batches: Vec::new(), recording: false }
    }

    /// Start recording afresh: what was recorded before is dropped.
    pub fn start_recording(&mut self)
        ensures
            final(self).recorded() == Seq::<T>::empty(),
            final(self).is_on(),
    {
        self.batches.clear();
        self.recording = true;
    }

    /// Stop recording; what was recorded is kept.
    pub fn stop_recording(&mut self)
        ensures
            final(self).recorded() == old(self).recorded(),
            !final(self).is_on(),
    {
        self.recording = false;
    }

    pub fn is_recording(&self) -> (r: bool)
        ensures
            r == self.is_on(),
    {
        self.recording
    }

    /// Keep `batch` if recording is on; otherwise drop it.
    pub fn record(&mut self, batch: T)
        ensures
            final(self).is_on() == old(self).is_on(),
            final(self).recorded() == if old(self).is_on() {
                old(self).recorded().push(batch)
            } else {
                old(self).recorded()
            },
    {
        if self.recording {
            self.batches.push(batch);
        }
    }

    /// The recorded batches, oldest first.
    pub fn batches(&self) -> (r: &[T])
        ensures
            r@ == self.recorded(),
    {
        self.batches.as_slice()
    }

    /// Number of recorded batches.
    pub fn len(&self) -> (r: usize)
        ensures
            r == self.recorded().len(),
    {
        self.batches.len()
    }

    pub fn is_empty(&self) -> (r: bool)
        ensures
            r == (self.recorded().len() == 0),
    {
        self.batches.len() == 0
    }
}

/// While recording is off nothing is recorded, and starting again forgets
/// the earlier session.
pub proof fn lemma_recording_sessions<T>(pre: BatchRecorder<T>, post: BatchRecorder<T>, batch: T)
    requires
        !pre.is_on(),
        post.is_on() == pre.is_on(),
        post.recorded() == if pre.is_on() { pre.recorded().push(batch) } else { pre.recorded() },
    ensures
        post.recorded() == pre.recorded(),
{
}

} // verus!
