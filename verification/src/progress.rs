//! How far a render has come, as a count of bytes.

use crate::span::{lemma_split_covers, lemma_split_index, spec_split, spec_total_len, Span};
use vstd::prelude::*;

verus! {

/// The part of the image that has been produced: `done` bytes of `total`.
/// As a fraction it is `done / total`, between 0 and 1.
#[derive(Clone, Copy, Debug, PartialEq, Eq, Structural)]
pub struct Progress {
    pub done: usize,
    pub total: usize,
}

impl Progress {
    /// No more is done than there is to do.
    pub open spec fn wf(self) -> bool {
        self.done <= self.total
    }

    /// Everything is done: the fraction is exactly 1.
    pub open spec fn spec_is_complete(self) -> bool {
        self.done == self.total
    }

    /// The progress of a render of `total` bytes that has not produced any.
    pub fn start(total: usize) -> (progress: Self)
        ensures
            progress == (Progress { done: 0, total }),
            progress.wf(),
    {
        Progress { done: 0, total }
    }

    /// Counts `bytes` more bytes as done. The count never falls.
    pub fn record(&mut self, bytes: usize)
        requires
            old(self).done + bytes <= old(self).total,
        ensures
            final(self).done == old(self).done + bytes,
            final(self).total == old(self).total,
            final(self).done >= old(self).done,
            final(self).wf(),
    {
        self.done = self.done + bytes;
    }

    /// Whether `bytes` more bytes can be counted without passing the total.
    pub fn can_record(&self, bytes: usize) -> (fits: bool)
        requires
            self.wf(),
        ensures
            fits <==> self.done + bytes <= self.total,
    {
        bytes <= self.total - self.done
    }

    pub fn is_complete(&self) -> (complete: bool)
        ensures
            complete == self.spec_is_complete(),
    {
        self.done == self.total
    }
}

/// What a run reports that produces the windows `windows` of an image of
/// `total` bytes: nothing done before the first window, and after each
/// window all bytes up to its end.
pub open spec fn spec_reports(windows: Seq<Span>, total: nat) -> Seq<Progress> {
    seq![Progress { done: 0, total: total as usize }].add(
        Seq::new(
            windows.len(),
            |i: int| Progress { done: windows[i].end() as usize, total: total as usize },
        ),
    )
}

/// Over a whole run the reported progress starts at nothing, never falls,
/// never passes the total, and ends with everything done: as fractions the
/// reports rise from 0 to exactly 1.
pub proof fn lemma_progress_of_a_run(total: nat, window_size: nat)
    requires
        0 < total <= usize::MAX,
        window_size > 0,
    ensures
        spec_reports(spec_split(0, total, window_size), total)[0].done == 0,
        spec_reports(spec_split(0, total, window_size), total).last().spec_is_complete(),
        forall|i: int|
            0 <= i < spec_reports(spec_split(0, total, window_size), total).len()
                ==> (#[trigger] spec_reports(spec_split(0, total, window_size), total)[i]).wf(),
        forall|i: int, j: int|
            0 <= i <= j < spec_reports(spec_split(0, total, window_size), total).len()
                ==> (#[trigger] spec_reports(spec_split(0, total, window_size), total)[i]).done
                <= (#[trigger] spec_reports(spec_split(0, total, window_size), total)[j]).done,
{
    let windows = spec_split(0, total, window_size);
    let reports = spec_reports(windows, total);
    lemma_split_covers(0, total, window_size);
    assert(reports.last() == Progress {
        done: windows.last().end() as usize,
        total: total as usize,
    });
    assert forall|i: int| 0 <= i < reports.len() implies (#[trigger] reports[i]).wf() by {
        if i > 0 {
            assert(reports[i].done == windows[i - 1].end());
        }
    }
    assert forall|i: int, j: int| 0 <= i <= j < reports.len() implies (#[trigger] reports[i]).done
        <= (#[trigger] reports[j]).done by {
        if 0 < i && i < j {
            lemma_split_index(0, total, window_size, i - 1);
            lemma_split_index(0, total, window_size, j - 1);
            assert((i - 1) * window_size + window_size <= (j - 1) * window_size)
                by (nonlinear_arith)
                requires
                    i < j,
                    window_size > 0,
            ;
        }
    }
}

/// Chunk by chunk, in whatever order the workers finish, the count of a
/// window's bytes ends at the whole window: the chunks of a window hold its
/// bytes together, each once.
pub proof fn lemma_chunks_add_up(window: Span, chunk_len: nat)
    requires
        chunk_len > 0,
        window.end() <= usize::MAX,
    ensures
        spec_total_len(spec_split(window.offset as nat, window.len as nat, chunk_len))
            == window.len,
{
    lemma_split_covers(window.offset as nat, window.len as nat, chunk_len);
}

} // verus!
