//! The windows of fixed width that slide over a series, one position at a time.
use vstd::prelude::*;

verus! {

/// One window: the positions `start <= i < end` of the series, and the
/// position that the window is reported under.
#[derive(Clone, Copy, Debug, PartialEq, Eq)]
pub struct WindowSpan {
    pub start: usize,
    pub end: usize,
    pub center: usize,
}

/// The windows of one width over a series of one length, in the order of
/// their offsets. Nothing is computed until a window is asked for, and the
/// windows can be gone through any number of times.
#[derive(Clone, Copy, Debug, PartialEq, Eq)]
pub struct RollingWindows {
    pub len: usize,
    pub width: usize,
}

/// How many windows there are: one for each offset below `len - width`, and
/// none where the series is shorter than a window.
pub open spec fn window_count(len: int, width: int) -> int {
    if len < width {
        0
    } else {
        len - width
    }
}

/// The window at an offset: as wide as asked, reported under the position
/// half a width past its start.
pub open spec fn span_at(offset: int, width: int) -> WindowSpan {
    WindowSpan {
        start: offset as usize,
        end: (offset + width) as usize,
        center: (offset + width / 2) as usize,
    }
}

/// A series at least as long as a window has as many windows as it is longer
/// than one; from one window to the next the reported position goes up by
/// exactly one, and so do both ends of the window.
pub proof fn lemma_centers_step(len: usize, width: usize, offset: int)
    requires
        width <= len,
        0 <= offset,
        offset + 1 < window_count(len as int, width as int),
    ensures
        window_count(len as int, width as int) == len - width,
        span_at(offset + 1, width as int).center == span_at(offset, width as int).center + 1,
        span_at(offset + 1, width as int).start == span_at(offset, width as int).start + 1,
        span_at(offset + 1, width as int).end == span_at(offset, width as int).end + 1,
{
}

/// A series shorter than a window has no window at all.
pub proof fn lemma_short_series(len: usize, width: usize)
    requires
        len < width,
    ensures
        window_count(len as int, width as int) == 0,
{
}

impl RollingWindows {
    /// The windows of the given width over a series of the given length.
    pub fn new(len: usize, width: usize) -> (w: RollingWindows)
        ensures
            w.len == len,
            w.width == width,
    {
        RollingWindows { len, width }
    }

    /// The number of windows.
    pub fn count(&self) -> (n: usize)
        ensures
            n == window_count(self.len as int, self.width as int),
            self.len < self.width ==> n == 0,
            self.width <= self.len ==> n == self.len - self.width,
    {
        if self.len < self.width {
            0
        } else {
            self.len - self.width
        }
    }

    /// The window at the given offset, if there is one.
    pub fn get(&self, offset: usize) -> (r: Option<WindowSpan>)
        ensures
            r == if offset < window_count(self.len as int, self.width as int) {
                Some(span_at(offset as int, self.width as int))
            } else {
                None
            },
    {
        if offset < self.count() {
            Some(
                WindowSpan {
                    start: offset,
                    end: offset + self.width,
                    center: offset + self.width / 2,
                },
            )
        } else {
            None
        }
    }

    /// All windows, in the order of their offsets: each as wide as asked and
    /// inside the series, each reported one position after the one before.
    pub fn spans(&self) -> (r: Vec<WindowSpan>)
        ensures
            r.len() == window_count(self.len as int, self.width as int),
            forall|i: int| 0 <= i < r.len() ==> r[i] == span_at(i, self.width as int),
            forall|i: int|
                0 <= i < r.len() ==> (#[trigger] r[i]).end - r[i].start == self.width && r[i].end
                    < self.len,
            forall|i: int, j: int|
                0 <= i && j == i + 1 && j < r.len() ==> (#[trigger] r[j]).center == (
                #[trigger] r[i]).center + 1,
            self.len < self.width ==> r.len() == 0,
            self.width <= self.len ==> r.len() == self.len - self.width,
    {
        let n = self.count();
        let mut r: Vec<WindowSpan> = Vec::new();
        let mut offset: usize = 0;
        while offset < n
            invariant
                n == window_count(self.len as int, self.width as int),
                offset <= n,
                r.len() == offset,
                forall|i: int| 0 <= i < r.len() ==> r[i] == span_at(i, self.width as int),
            decreases n - offset,
        {
            r.push(
                WindowSpan {
                    start: offset,
                    end: offset + self.width,
                    center: offset + self.width / 2,
                },
            );
            offset += 1;
        }
        r
    }
}

} // verus!
