//! The stream emitter: given a source of units and a parsed offset, produce
//! the selected subsequence, either streaming (constant memory, for
//! from-the-start and skip policies) or windowed (retaining the last `n`
//! units until the source is exhausted).

use vstd::prelude::*;

use crate::chars::concat3;
use crate::offset::TakeValue;
use crate::window::{
    last_n, lemma_last_n_absorb, lemma_window_push_last_n, window_push, RetentionWindow,
};

verus! {

/// `s` without its first `k` elements; empty when `k` reaches past the end.
pub open spec fn skip_first<T>(s: Seq<T>, k: int) -> Seq<T> {
    if k <= 0 {
        s
    } else if k >= s.len() {
        Seq::<T>::empty()
    } else {
        s.subrange(k, s.len() as int)
    }
}

/// The units an offset policy selects out of a fully known source: all of
/// them from the start, all but the first `n - 1`, or only the last `|n|`
/// (nothing at all for `n == 0`).
pub open spec fn selected<T>(units: Seq<T>, tv: TakeValue) -> Seq<T> {
    match tv {
        TakeValue::PlusZero => units,
        TakeValue::TakeNum(n) => if n > 0 {
            skip_first(units, n - 1)
        } else {
            last_n(units, (-(n as int)) as nat)
        },
    }
}

/// Select from a fully materialised source. The windowed policy goes through
/// a retention window, so memory for the window never exceeds the smaller of
/// `|n|` and the source length.
pub fn select_all<T>(units: Vec<T>, tv: &TakeValue) -> (out: Vec<T>)
    ensures
        out@ == selected(units@, *tv),
{
    match tv {
        TakeValue::PlusZero => units,
        TakeValue::TakeNum(n) => {
            let n: i64 = *n;
            if n > 0 {
                let skip: i64 = n - 1;
                if skip as u64 >= units.len() as u64 {
                    assert(selected(units@, *tv) =~= Seq::<T>::empty());
                    Vec::new()
                } else {
                    let mut rest = units;
                    let out = rest.split_off(skip as usize);
                    assert(out@ =~= skip_first(rest@ + out@, n - 1));
                    out
                }
            } else {
                let magnitude: u64 = if n == i64::MIN {
                    0x8000_0000_0000_0000
                } else {
                    (-n) as u64
                };
                if magnitude >= units.len() as u64 {
                    assert(last_n(units@, (-(n as int)) as nat) == units@);
                    units
                } else {
                    let cap = magnitude as usize;
                    let ghost all = units@;
                    let mut rest = units;
                    let mut w: RetentionWindow<T> = RetentionWindow::new(cap);
                    assert(last_n(all.take(0), cap as nat) =~= Seq::<T>::empty());
                    let ghost mut taken: int = 0;
                    while rest.len() > 0
                        invariant
                            0 <= taken <= all.len(),
                            rest@ == all.skip(taken),
                            w.wf(),
                            w.cap() == cap as nat,
                            w@ == last_n(all.take(taken), cap as nat),
                        decreases rest@.len(),
                    {
                        let x = rest.remove(0);
                        assert(x == all[taken]);
                        let ghost pre = all.take(taken);
                        w.push(x);
                        proof {
                            lemma_window_push_last_n(last_n(pre, cap as nat), cap as nat, x);
                            lemma_last_n_absorb(pre, seq![x], cap as nat);
                            assert(last_n(pre, cap as nat).push(x) =~= last_n(pre, cap as nat)
                                + seq![x]);
                            assert(pre + seq![x] =~= all.take(taken + 1));
                            taken = taken + 1;
                        }
                        assert(rest@ =~= all.skip(taken));
                    }
                    assert(all.take(taken) =~= all);
                    let out = w.drain_ascending();
                    assert(out@ == last_n(units@, (-(n as int)) as nat));
                    out
                }
            }
        },
    }
}

/// The streaming skip-then-emit pass over a source, with `k` units still to
/// be skipped: each unit is either dropped (while the skip budget lasts) or
/// emitted the moment it is read.
pub open spec fn stream_emit<T>(units: Seq<T>, k: int) -> Seq<T>
    decreases units.len(),
{
    if units.len() == 0 {
        Seq::<T>::empty()
    } else if k > 0 {
        stream_emit(units.skip(1), k - 1)
    } else {
        seq![units[0]] + stream_emit(units.skip(1), 0)
    }
}

/// Law: for a positive offset `n`, the streaming strategy (drop the first
/// `n - 1` units as they are read, emit the rest immediately) produces the
/// same sequence as materialising the whole source and slicing it from
/// index `n - 1`.
pub proof fn lemma_streaming_matches_slice<T>(units: Seq<T>, n: int)
    requires
        1 <= n,
    ensures
        stream_emit(units, n - 1) == skip_first(units, n - 1),
    decreases units.len(),
{
    if units.len() == 0 {
        assert(stream_emit(units, n - 1) =~= skip_first(units, n - 1));
    } else if n - 1 > 0 {
        lemma_streaming_matches_slice(units.skip(1), n - 1);
        assert(skip_first(units.skip(1), n - 2) =~= skip_first(units, n - 1));
    } else {
        lemma_streaming_matches_slice(units.skip(1), 1);
        assert(seq![units[0]] + skip_first(units.skip(1), 0) =~= skip_first(units, 0));
    }
}

/// Drives one source through an offset policy, unit by unit. Streaming
/// policies hand each selected unit back as soon as it is offered; the
/// windowed policy retains units and hands them out at the end.
pub struct StreamEmitter<T> {
    policy: TakeValue,
    skipped: u64,
    window: RetentionWindow<T>,
    offered: Ghost<Seq<T>>,
    emitted: Ghost<Seq<T>>,
}

impl<T> StreamEmitter<T> {
    /// The policy this emitter was created with.
    pub closed spec fn policy(&self) -> TakeValue {
        self.policy
    }

    /// Every unit offered so far, in order.
    pub closed spec fn offered(&self) -> Seq<T> {
        self.offered@
    }

    /// Every unit handed back so far, in order.
    pub closed spec fn emitted(&self) -> Seq<T> {
        self.emitted@
    }

    pub closed spec fn wf(&self) -> bool {
        &&& self.window.wf()
        &&& match self.policy {
            TakeValue::PlusZero => self.emitted@ == self.offered@,
            TakeValue::TakeNum(n) => if n > 0 {
                &&& self.skipped as int == if self.offered@.len() <= n - 1 {
                    self.offered@.len() as int
                } else {
                    n - 1
                }
                &&& self.emitted@ == skip_first(self.offered@, n - 1)
            } else {
                &&& self.emitted@ == Seq::<T>::empty()
                &&& self.window.cap() == -(n as int)
                &&& self.window@ == last_n(self.offered@, (-(n as int)) as nat)
            },
        }
    }

    /// A fresh emitter for one source. The capacity of the retention window
    /// must fit the machine; only a windowed policy allocates one.
    pub fn new(policy: TakeValue) -> (e: Self)
        requires
            policy matches TakeValue::TakeNum(n) ==> (n <= 0 ==> -(n as int) <= usize::MAX),
        ensures
            e.wf(),
            e.policy() == policy,
            e.offered() == Seq::<T>::empty(),
            e.emitted() == Seq::<T>::empty(),
    {
        let cap: usize = match policy {
            TakeValue::TakeNum(n) if n <= 0 => {
                let magnitude: u64 = if n == i64::MIN {
                    0x8000_0000_0000_0000
                } else {
                    (-n) as u64
                };
                magnitude as usize
            },
            _ => 0,
        };
        let e = StreamEmitter {
            policy,
            skipped: 0,
            window: RetentionWindow::new(cap),
            offered: Ghost(Seq::empty()),
            emitted: Ghost(Seq::empty()),
        };
        assert(last_n(Seq::<T>::empty(), e.window.cap()) =~= Seq::<T>::empty());
        e
    }

    /// Offer the next unit of the source. The result is the unit to write
    /// out now, if the policy emits while streaming.
    pub fn offer(&mut self, unit: T) -> (emit: Option<T>)
        requires
            old(self).wf(),
        ensures
            final(self).wf(),
            final(self).policy() == old(self).policy(),
            final(self).offered() == old(self).offered().push(unit),
            match emit {
                Some(u) => final(self).emitted() == old(self).emitted().push(u),
                None => final(self).emitted() == old(self).emitted(),
            },
    {
        let ghost pre = self.offered@;
        proof {
            self.offered@ = self.offered@.push(unit);
        }
        match self.policy {
            TakeValue::PlusZero => {
                proof {
                    self.emitted@ = self.emitted@.push(unit);
                }
                Some(unit)
            },
            TakeValue::TakeNum(n) => {
                if n > 0 {
                    let target: u64 = (n - 1) as u64;
                    if self.skipped < target {
                        self.skipped = self.skipped + 1;
                        assert(skip_first(pre.push(unit), n - 1) =~= skip_first(pre, n - 1));
                        None
                    } else {
                        proof {
                            self.emitted@ = self.emitted@.push(unit);
                        }
                        assert(skip_first(pre.push(unit), n - 1) =~= skip_first(pre, n - 1).push(
                            unit,
                        ));
                        Some(unit)
                    }
                } else {
                    let ghost cap = self.window.cap();
                    self.window.push(unit);
                    proof {
                        lemma_window_push_last_n(last_n(pre, cap), cap, unit);
                        lemma_last_n_absorb(pre, seq![unit], cap);
                        assert(last_n(pre, cap).push(unit) =~= last_n(pre, cap) + seq![unit]);
                        assert(pre + seq![unit] =~= pre.push(unit));
                    }
                    None
                }
            },
        }
    }

    /// The source is exhausted: hand out whatever the window retained. What
    /// was emitted while streaming, followed by this tail, is exactly the
    /// selection the policy asks for.
    pub fn finish(self) -> (tail: Vec<T>)
        requires
            self.wf(),
        ensures
            self.emitted() + tail@ == selected(self.offered(), self.policy()),
    {
        match self.policy {
            TakeValue::TakeNum(n) if n <= 0 => {
                let tail = self.window.drain_ascending();
                assert(self.emitted() + tail@ =~= selected(self.offered(), self.policy()));
                tail
            },
            _ => {
                let tail: Vec<T> = Vec::new();
                assert(self.emitted() + tail@ =~= selected(self.offered(), self.policy()));
                tail
            },
        }
    }
}

/// What processing one source yields: the selected units, or nothing when
/// the source could not be read.
pub open spec fn source_outcome<T>(src: Option<Seq<T>>, tv: TakeValue) -> Option<Seq<T>> {
    match src {
        Some(units) => Some(selected(units, tv)),
        None => None,
    }
}

/// Process several sources in order, each independently: a source that
/// failed to open or read (`None`) yields no output, and has no effect on
/// the outputs of the others.
pub fn emit_sources<T>(sources: Vec<Option<Vec<T>>>, tv: &TakeValue) -> (outs: Vec<
    Option<Vec<T>>,
>)
    ensures
        outs@.len() == sources@.len(),
        forall|i: int|
            0 <= i < sources@.len() ==> match #[trigger] sources@[i] {
                Some(units) => outs@[i] matches Some(out) && out@ == selected(units@, *tv),
                None => outs@[i] is None,
            },
{
    let ghost all = sources@;
    let mut rest = sources;
    let mut outs: Vec<Option<Vec<T>>> = Vec::new();
    let ghost mut done: int = 0;
    while rest.len() > 0
        invariant
            0 <= done <= all.len(),
            rest@ == all.skip(done),
            outs@.len() == done,
            forall|i: int|
                0 <= i < done ==> match #[trigger] all[i] {
                    Some(units) => outs@[i] matches Some(out) && out@ == selected(units@, *tv),
                    None => outs@[i] is None,
                },
        decreases rest@.len(),
    {
        let src = rest.remove(0);
        assert(src == all[done]);
        match src {
            Some(units) => {
                let out = select_all(units, tv);
                outs.push(Some(out));
            },
            None => {
                outs.push(None);
            },
        }
        proof {
            done = done + 1;
        }
        assert(rest@ =~= all.skip(done));
    }
    outs
}

/// Law: sources are isolated; what one source yields depends on that source
/// and the policy alone, so replacing every other source, or failing them,
/// leaves its outcome unchanged.
pub proof fn lemma_source_isolation<T>(
    a: Seq<Option<Seq<T>>>,
    b: Seq<Option<Seq<T>>>,
    tv: TakeValue,
    i: int,
)
    requires
        0 <= i < a.len(),
        0 <= i < b.len(),
        a[i] == b[i],
    ensures
        source_outcome(a[i], tv) == source_outcome(b[i], tv),
{
}

/// The header line naming a source, printed before its units when several
/// sources are given.
pub fn format_header(name: &str) -> (h: String)
    ensures
        h@ == "==> "@ + name@ + " <=="@,
{
    concat3("==> ", name, " <==")
}

} // verus!
