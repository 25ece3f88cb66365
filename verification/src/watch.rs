//! Filesystem-event debouncing and filtering.
//!
//! Raw events arriving within one short window are coalesced into a single
//! batch.  Paths matching known editor-temporary patterns (a trailing `~`,
//! or the intermediate file some editors create while saving) are filtered
//! out before they reach any batch, so they never result in a loader
//! invocation.  The surrounding event loop feeds events in and forwards the
//! returned batches to the loader.

use vstd::prelude::*;

verus! {

/// The position of the last path separator.
pub open spec fn spec_last_sep(p: Seq<char>) -> Option<int>
    decreases p.len(),
{
    if p.len() == 0 {
        None
    } else if p.last() == '/' {
        Some(p.len() - 1)
    } else {
        spec_last_sep(p.drop_last())
    }
}

/// The last segment of a path: everything after the last separator.
pub open spec fn spec_last_segment(p: Seq<char>) -> Seq<char> {
    match spec_last_sep(p) {
        None => p,
        Some(k) => p.subrange(k + 1, p.len() as int),
    }
}

/// The intermediate filename prefix some editors write through while saving.
pub open spec fn temp_prefix() -> Seq<char> {
    seq!['.', 'g', 'o', 'u', 't', 'p', 'u', 't', 's', 't', 'r', 'e', 'a', 'm']
}

/// A path of an editor-temporary file: it ends with `~`, or its filename
/// opens with the known intermediate prefix.
pub open spec fn spec_editor_temp(p: Seq<char>) -> bool {
    ||| (p.len() > 0 && p.last() == '~')
    ||| {
        let f = spec_last_segment(p);
        temp_prefix().len() <= f.len() && f.subrange(0, temp_prefix().len() as int)
            == temp_prefix()
    }
}

/// Mirrors [`spec_last_sep`].
fn last_sep(p: &[char]) -> (r: Option<usize>)
    ensures
        match r {
            Some(k) => spec_last_sep(p@) == Some(k as int) && k < p@.len(),
            None => spec_last_sep(p@) is None,
        },
{
    let n = p.len();
    let mut i: usize = n;
    proof {
        assert(p@.subrange(0, n as int) =~= p@);
    }
    while i > 0
        invariant
            i <= n,
            n == p@.len(),
            spec_last_sep(p@) == spec_last_sep(p@.subrange(0, i as int)),
        decreases i,
    {
        proof {
            assert(p@.subrange(0, i as int).last() == p@[i - 1]);
            assert(p@.subrange(0, i as int).drop_last() =~= p@.subrange(0, i - 1));
        }
        if p[i - 1] == '/' {
            return Some(i - 1);
        }
        i = i - 1;
    }
    proof {
        assert(p@.subrange(0, 0) =~= Seq::<char>::empty());
    }
    None
}

/// Decides whether a path names an editor-temporary file.  Such an event
/// never reaches the loader.
#[verifier::loop_isolation(false)]
pub fn is_editor_temp(path: &str) -> (r: bool)
    ensures
        r == spec_editor_temp(path@),
{
    let p = crate::text::to_chars(path);
    let n = p.len();
    if n > 0 && p[n - 1] == '~' {
        return true;
    }
    let start = match last_sep(p.as_slice()) {
        None => 0usize,
        Some(k) => k + 1,
    };
    let ghost f = spec_last_segment(path@);
    proof {
        if spec_last_sep(p@) is None {
            assert(p@.subrange(0, n as int) =~= p@);
            assert(f =~= p@.subrange(start as int, n as int));
        } else {
            assert(f =~= p@.subrange(start as int, n as int));
        }
    }
    let prefix: [char; 14] = [
        '.',
        'g',
        'o',
        'u',
        't',
        'p',
        'u',
        't',
        's',
        't',
        'r',
        'e',
        'a',
        'm',
    ];
    proof {
        assert(prefix@ =~= temp_prefix());
    }
    if n - start < prefix.len() {
        proof {
            assert(f.len() < temp_prefix().len());
        }
        return false;
    }
    let mut k: usize = 0;
    while k < prefix.len()
        invariant
            start + prefix@.len() <= n,
            k <= prefix@.len(),
            forall|j: int| 0 <= j < k ==> p@[start + j] == prefix@[j],
        decreases prefix@.len() - k,
    {
        if p[start + k] != prefix[k] {
            proof {
                assert(f[k as int] == p@[start + k]);
                assert(f.subrange(0, temp_prefix().len() as int)[k as int] == f[k as int]);
            }
            return false;
        }
        k = k + 1;
    }
    proof {
        assert(f.subrange(0, temp_prefix().len() as int) =~= temp_prefix());
    }
    true
}

/// Coalesces filesystem events into batches.  Events arriving within
/// `window` milliseconds of the batch's start fall into the same batch;
/// editor-temporary paths are dropped before they reach any batch.
pub struct Debouncer {
    window: u64,
    deadline: u64,
    open: bool,
    batch: Vec<String>,
}

impl Debouncer {
    /// The paths waiting in the open batch.
    pub closed spec fn spec_batch(self) -> Seq<Seq<char>> {
        self.batch.deep_view()
    }

    /// The coalescing window, in milliseconds.
    pub closed spec fn spec_window(self) -> u64 {
        self.window
    }

    /// A batch is open, waiting for its deadline.
    pub closed spec fn spec_open(self) -> bool {
        self.open
    }

    /// No editor-temporary path ever sits in a batch.
    pub open spec fn wf(self) -> bool {
        forall|i: int|
            0 <= i < self.spec_batch().len() ==> !spec_editor_temp(#[trigger] self.spec_batch()[i])
    }

    /// A debouncer with the given window and no open batch.
    pub fn new(window_ms: u64) -> (r: Debouncer)
        ensures
            r.wf(),
            r.spec_window() == window_ms,
            !r.spec_open(),
            r.spec_batch() == Seq::<Seq<char>>::empty(),
    {
        let d = Debouncer { window: window_ms, deadline: 0, open: false, batch: Vec::new() };
        proof {
            assert(d.spec_batch() =~~= Seq::<Seq<char>>::empty());
        }
        d
    }

    /// Hands one event to the debouncer at time `now_ms`.  An
    /// editor-temporary path changes nothing and never reaches a batch.  Any
    /// other path joins the open batch when it arrives before the deadline;
    /// otherwise the previous batch (if one was open) is returned for
    /// forwarding and a new batch starts with this path.
    pub fn offer(&mut self, path: String, now_ms: u64) -> (r: Option<Vec<String>>)
        requires
            old(self).wf(),
        ensures
            final(self).wf(),
            final(self).spec_window() == old(self).spec_window(),
            spec_editor_temp(path@) ==> *final(self) == *old(self) && r is None,
            !spec_editor_temp(path@) ==> {
                &&& (if !old(self).spec_open() || now_ms >= old(self).spec_deadline() {
                    final(self).spec_batch() == seq![path@]
                } else {
                    final(self).spec_batch() == old(self).spec_batch().push(path@)
                })
                &&& final(self).spec_open()
                &&& match r {
                    Some(b) => old(self).spec_open() && now_ms >= old(self).spec_deadline()
                        && b.deep_view() == old(self).spec_batch(),
                    None => !old(self).spec_open() || now_ms < old(self).spec_deadline(),
                }
            },
            r matches Some(b) ==> forall|i: int|
                0 <= i < b.deep_view().len() ==> !spec_editor_temp(#[trigger] b.deep_view()[i]),
    {
        if is_editor_temp(path.as_str()) {
            return None;
        }
        let ghost pathv = path@;
        if !self.open {
            self.open = true;
            self.deadline = saturating_add(now_ms, self.window);
            let mut batch: Vec<String> = Vec::new();
            batch.push(path);
            self.batch = batch;
            proof {
                assert(self.spec_batch() =~~= seq![pathv]);
            }
            None
        } else if now_ms < self.deadline {
            let ghost before = self.spec_batch();
            self.batch.push(path);
            proof {
                assert(self.spec_batch() =~~= before.push(pathv));
            }
            None
        } else {
            let mut done: Vec<String> = Vec::new();
            done.push(path);
            core::mem::swap(&mut self.batch, &mut done);
            self.deadline = saturating_add(now_ms, self.window);
            proof {
                assert(self.spec_batch() =~~= seq![pathv]);
            }
            Some(done)
        }
    }

    /// The moment the open batch closes.
    pub closed spec fn spec_deadline(self) -> u64 {
        self.deadline
    }

    /// Closes the open batch if its deadline has passed, handing it out for
    /// forwarding.
    pub fn flush(&mut self, now_ms: u64) -> (r: Option<Vec<String>>)
        requires
            old(self).wf(),
        ensures
            final(self).wf(),
            final(self).spec_window() == old(self).spec_window(),
            match r {
                Some(b) => {
                    &&& old(self).spec_open() && now_ms >= old(self).spec_deadline()
                    &&& b.deep_view() == old(self).spec_batch()
                    &&& !final(self).spec_open()
                    &&& final(self).spec_batch() == Seq::<Seq<char>>::empty()
                    &&& forall|i: int|
                        0 <= i < b.deep_view().len() ==> !spec_editor_temp(
                            #[trigger] b.deep_view()[i],
                        )
                },
                None => !old(self).spec_open() || now_ms < old(self).spec_deadline(),
            },
    {
        if self.open && now_ms >= self.deadline {
            self.open = false;
            let mut done: Vec<String> = Vec::new();
            core::mem::swap(&mut self.batch, &mut done);
            proof {
                assert(self.spec_batch() =~~= Seq::<Seq<char>>::empty());
            }
            Some(done)
        } else {
            None
        }
    }
}

/// Adds without wrapping: the sum, or the largest value on overflow.
fn saturating_add(a: u64, b: u64) -> (r: u64)
    ensures
        r == if a + b <= u64::MAX {
            a + b
        } else {
            u64::MAX as int
        },
{
    if a <= u64::MAX - b {
        a + b
    } else {
        u64::MAX
    }
}

} // verus!
