//! The range descriptor and the selection engine.

use vstd::prelude::*;

verus! {

use vstd::math::min;

/// An immutable descriptor of one user-specified index range.
///
/// `start` and `end` are signed: a negative bound is relative to the end of
/// the token sequence. `end == isize::MAX` stands for an open range that runs
/// through the last token. The two derived flags are computed once at
/// construction and never change.
#[derive(Debug)]
pub struct Choice {
    pub start: isize,
    pub end: isize,
    pub negative_index: bool,
    pub reversed: bool,
}

impl Choice {
    /// True iff at least one bound is end-relative.
    pub open spec fn spec_negative_index(self) -> bool {
        self.start < 0 || self.end < 0
    }

    /// True iff the raw bounds are numerically descending, independent of sign.
    pub open spec fn spec_reversed(self) -> bool {
        self.end < self.start
    }

    /// The derived flags agree with the raw bounds; established by [`Choice::new`].
    pub open spec fn wf(self) -> bool {
        &&& self.negative_index == self.spec_negative_index()
        &&& self.reversed == self.spec_reversed()
    }

    pub fn new(start: isize, end: isize) -> (c: Self)
        ensures
            c.start == start,
            c.end == end,
            c.wf(),
    {
        let negative_index = start < 0 || end < 0;
        let reversed = end < start;
        Choice {
            start,
            end,
            negative_index,
            reversed,
        }
    }

    pub fn is_reverse_range(&self) -> (r: bool)
        requires
            self.wf(),
        ensures
            r == self.spec_reversed(),
    {
        self.reversed
    }

    pub fn has_negative_index(&self) -> (r: bool)
        requires
            self.wf(),
        ensures
            r == self.spec_negative_index(),
    {
        self.negative_index
    }

    /// The forward strategy's single pass: starting at index `from`, emits
    /// tokens in arrival order, at most `max_items + 1` of them, stopping
    /// early when the sequence is exhausted.
    #[verifier::loop_isolation(false)]
    pub fn print_choice_loop_max_items<T: Copy>(
        tokens: &Vec<T>,
        from: usize,
        max_items: isize,
    ) -> (out: Vec<T>)
        requires
            from <= tokens@.len(),
            0 <= max_items,
        ensures
            out@ == tokens@.subrange(
                from as int,
                min(from + max_items + 1, tokens@.len() as int),
            ),
    {
        let max: usize = max_items as usize;
        let mut out: Vec<T> = Vec::new();
        let mut idx: usize = from;
        while idx < tokens.len() && idx - from <= max
            invariant
                from <= idx <= tokens@.len(),
                idx - from <= max + 1,
                out@ == tokens@.subrange(from as int, idx as int),
            decreases tokens@.len() - idx,
        {
            out.push(tokens[idx]);
            idx = idx + 1;
        }
        out
    }

    /// The forward strategy without an item limit: emits every token from
    /// index `from` through the end of the sequence, in arrival order.
    pub fn print_choice_loop<T: Copy>(tokens: &Vec<T>, from: usize) -> (out: Vec<T>)
        requires
            from <= tokens@.len(),
            tokens@.len() <= isize::MAX,
        ensures
            out@ == tokens@.subrange(from as int, tokens@.len() as int),
    {
        let out = Self::print_choice_loop_max_items(tokens, from, isize::MAX);
        proof {
            assert(out@ =~= tokens@.subrange(from as int, tokens@.len() as int));
        }
        out
    }

    /// The reverse strategy: skips the first `end` tokens, consumes the
    /// window up to index `start` into a bounded buffer, and emits the buffer
    /// last-consumed first. A window clipped by the end of the sequence is
    /// emitted as collected, still reversed.
    #[verifier::loop_isolation(false)]
    pub fn print_choice_reverse<T: Copy>(&self, tokens: &Vec<T>) -> (out: Vec<T>)
        requires
            self.wf(),
            self.spec_reversed(),
            !self.spec_negative_index(),
        ensures
            out@ == reverse_selection(*self, tokens@),
    {
        let len = tokens.len();
        let lo: usize = if (self.end as usize) < len {
            self.end as usize
        } else {
            len
        };
        let hi: usize = if (self.start as usize) < len {
            self.start as usize + 1
        } else {
            len
        };
        let mut stack: Vec<T> = Vec::new();
        let mut idx: usize = lo;
        while idx < hi
            invariant
                lo <= idx <= hi,
                stack@ == tokens@.subrange(lo as int, idx as int),
            decreases hi - idx,
        {
            stack.push(tokens[idx]);
            idx = idx + 1;
        }
        let mut out: Vec<T> = Vec::new();
        let mut j: usize = stack.len();
        while j > 0
            invariant
                j <= stack@.len(),
                out@.len() == stack@.len() - j,
                forall|k: int|
                    0 <= k < out@.len() ==> out@[k] == stack@[stack@.len() - 1 - k],
            decreases j,
        {
            j = j - 1;
            out.push(stack[j]);
        }
        proof {
            assert(out@ =~= stack@.reverse());
        }
        out
    }

    /// Resolves both raw bounds against the materialized sequence, as
    /// [`resolved_index`] describes: a negative bound whose magnitude exceeds
    /// the length saturates to index zero rather than faulting.
    pub fn get_negative_start_end<T>(&self, vec: &Vec<T>) -> (r: (usize, usize))
        ensures
            r.0 as int == resolved_index(self.start as int, vec@.len()),
            r.1 as int == resolved_index(self.end as int, vec@.len()),
    {
        let len = vec.len();
        let start: usize = if self.start >= 0 {
            self.start as usize
        } else {
            let m: usize = (-(self.start + 1)) as usize;
            if m >= len {
                0
            } else {
                len - m - 1
            }
        };
        let end: usize = if self.end >= 0 {
            self.end as usize
        } else {
            let m: usize = (-(self.end + 1)) as usize;
            if m >= len {
                0
            } else {
                len - m - 1
            }
        };
        (start, end)
    }

    /// The negative-indexed strategy: the whole sequence is materialized, the
    /// bounds are resolved against its length, and the emission follows
    /// [`negative_selection`]: ascending and inclusive when the resolved end
    /// lies above the resolved start, descending only when the original
    /// `start` was negative, and empty otherwise.
    #[verifier::loop_isolation(false)]
    pub fn print_choice_negative<T: Copy>(&self, tokens: &Vec<T>) -> (out: Vec<T>)
        requires
            self.wf(),
            self.spec_negative_index(),
        ensures
            out@ == negative_selection(*self, tokens@),
    {
        let mut out: Vec<T> = Vec::new();
        let len = tokens.len();
        if len == 0 {
            return out;
        }
        let (start, end) = self.get_negative_start_end(tokens);
        if end > start {
            let hi: usize = if end < len - 1 {
                end
            } else {
                len - 1
            };
            let mut idx: usize = start;
            while idx <= hi
                invariant
                    start <= idx <= hi + 1,
                    hi < tokens@.len(),
                    out@ == tokens@.subrange(start as int, idx as int),
                decreases hi + 1 - idx,
            {
                out.push(tokens[idx]);
                idx = idx + 1;
            }
        } else if self.start < 0 {
            let mut idx: usize = start + 1;
            while idx > end
                invariant
                    end <= idx <= start + 1,
                    start < tokens@.len(),
                    out@.len() == start + 1 - idx,
                    forall|k: int|
                        0 <= k < out@.len() ==> out@[k] == tokens@[start - k],
                decreases idx,
            {
                idx = idx - 1;
                out.push(tokens[idx]);
            }
            proof {
                assert(out@ =~= tokens@.subrange(end as int, start + 1).reverse());
            }
        }
        out
    }

    /// Dispatches to exactly one strategy, reverse ranges first, then any
    /// range with an end-relative bound, then the forward single pass.
    pub fn print_choice_generic<T: Copy>(&self, tokens: &Vec<T>) -> (out: Vec<T>)
        requires
            self.wf(),
        ensures
            out@ == spec_selection(*self, tokens@),
    {
        if self.is_reverse_range() && !self.has_negative_index() {
            self.print_choice_reverse(tokens)
        } else if self.has_negative_index() {
            self.print_choice_negative(tokens)
        } else {
            let from: usize = if self.start > 0 && (self.start as usize) < tokens.len() {
                self.start as usize
            } else if self.start > 0 {
                tokens.len()
            } else {
                0
            };
            let range: isize = self.end - self.start;
            let out = Self::print_choice_loop_max_items(tokens, from, range);
            proof {
                assert(out@ =~= forward_selection(*self, tokens@));
            }
            out
        }
    }

    /// The whole selection of one line: the tokens the range selects, in
    /// emission order, each paired with its `has_more` flag. The flag is
    /// computed by one-token lookahead on the emission sequence: it is `true`
    /// on every token that another token follows, `false` on the last one.
    #[verifier::loop_isolation(false)]
    pub fn print_choice<T: Copy>(&self, tokens: &Vec<T>) -> (out: Vec<(T, bool)>)
        requires
            self.wf(),
        ensures
            out@ == emission(spec_selection(*self, tokens@)),
    {
        let sel = self.print_choice_generic(tokens);
        let mut out: Vec<(T, bool)> = Vec::new();
        let mut i: usize = 0;
        while i < sel.len()
            invariant
                i <= sel@.len(),
                out@.len() == i,
                forall|j: int|
                    0 <= j < i ==> out@[j] == (sel@[j], j + 1 < sel@.len()),
            decreases sel@.len() - i,
        {
            let has_more = i + 1 < sel.len();
            out.push((sel[i], has_more));
            i = i + 1;
        }
        proof {
            assert(out@ =~= emission(spec_selection(*self, tokens@)));
        }
        out
    }
}

/// A raw signed bound resolved against a sequence of length `len`: a
/// non-negative bound passes through unchanged, a negative bound `n` becomes
/// `len - |n|`, clamped to index zero when its magnitude exceeds `len`.
pub open spec fn resolved_index(raw: int, len: nat) -> int {
    if raw >= 0 {
        raw
    } else if len + raw >= 0 {
        len + raw
    } else {
        0
    }
}

/// The tokens selected by an ascending non-negative range: those at indices
/// `start ..= end`, clipped to the sequence, in arrival order.
pub open spec fn forward_selection<T>(c: Choice, toks: Seq<T>) -> Seq<T>
    recommends
        !c.spec_negative_index(),
        !c.spec_reversed(),
{
    toks.subrange(
        min(c.start as int, toks.len() as int),
        min(c.end + 1, toks.len() as int),
    )
}

/// The tokens selected by a descending non-negative range: those at indices
/// `start` down to `end`, clipped to the sequence, in descending order.
pub open spec fn reverse_selection<T>(c: Choice, toks: Seq<T>) -> Seq<T>
    recommends
        !c.spec_negative_index(),
        c.spec_reversed(),
{
    toks.subrange(
        min(c.end as int, toks.len() as int),
        min(c.start + 1, toks.len() as int),
    ).reverse()
}

/// The tokens selected by a range with at least one end-relative bound.
///
/// Both bounds are first resolved against the length. When the resolved end
/// lies above the resolved start the emission is ascending and inclusive of
/// both resolved bounds, clipped to the last index. Otherwise only a range
/// whose original `start` was negative emits: the tokens from the resolved
/// start down to the resolved end, in descending order. An empty sequence
/// always yields an empty selection.
pub open spec fn negative_selection<T>(c: Choice, toks: Seq<T>) -> Seq<T>
    recommends
        c.spec_negative_index(),
{
    let len = toks.len() as int;
    let s = resolved_index(c.start as int, toks.len());
    let e = resolved_index(c.end as int, toks.len());
    if len == 0 {
        Seq::empty()
    } else if e > s {
        toks.subrange(s, min(e, len - 1) + 1)
    } else if c.start < 0 {
        toks.subrange(e, s + 1).reverse()
    } else {
        Seq::empty()
    }
}

/// The full selection: exactly one strategy applies, a descending
/// non-negative range going to the reverse strategy, any range with an
/// end-relative bound to the negative strategy, and everything else to the
/// forward strategy.
pub open spec fn spec_selection<T>(c: Choice, toks: Seq<T>) -> Seq<T> {
    if c.spec_reversed() && !c.spec_negative_index() {
        reverse_selection(c, toks)
    } else if c.spec_negative_index() {
        negative_selection(c, toks)
    } else {
        forward_selection(c, toks)
    }
}

/// Each selected token paired with its `has_more` flag: `true` tells the
/// writer to place the output separator after the token, so the flag is set
/// on every token but the last one.
pub open spec fn emission<T>(sel: Seq<T>) -> Seq<(T, bool)> {
    Seq::new(sel.len(), |i: int| (sel[i], i + 1 < sel.len()))
}

/// Separator correctness: in the emission of any non-empty selection the
/// last token never carries the separator flag, and every earlier token
/// does.
pub proof fn lemma_separator_correctness<T>(sel: Seq<T>)
    requires
        sel.len() > 0,
    ensures
        emission(sel).len() == sel.len(),
        !emission(sel)[sel.len() - 1].1,
        forall|i: int| 0 <= i < sel.len() - 1 ==> emission(sel)[i].1,
{
}

/// Idempotence: a range from index zero through the open end returns the
/// token sequence unchanged, for every sequence whose length stays within
/// the open-end sentinel.
pub proof fn lemma_full_range_identity<T>(c: Choice, toks: Seq<T>)
    requires
        c.start == 0,
        c.end == isize::MAX,
        toks.len() <= isize::MAX + 1,
    ensures
        spec_selection(c, toks) == toks,
{
    assert(spec_selection(c, toks) =~= toks);
}

/// Round trip: for bounds `0 <= i <= j` inside the sequence, the selection
/// of `j:i` is the exact reverse of the selection of `i:j`.
pub proof fn lemma_round_trip<T>(fwd: Choice, rev: Choice, toks: Seq<T>)
    requires
        0 <= fwd.start <= fwd.end < toks.len(),
        rev.start == fwd.end,
        rev.end == fwd.start,
    ensures
        spec_selection(rev, toks) == spec_selection(fwd, toks).reverse(),
{
    assert(spec_selection(rev, toks) =~= spec_selection(fwd, toks).reverse());
}

/// An open-ended range with a negative start selects exactly the trailing
/// tokens from the resolved start onward, in arrival order.
pub proof fn lemma_open_ended_suffix<T>(c: Choice, toks: Seq<T>)
    requires
        c.start < 0,
        c.end == isize::MAX,
        toks.len() + c.start >= 0,
        toks.len() <= isize::MAX,
    ensures
        spec_selection(c, toks) == toks.subrange(toks.len() + c.start, toks.len() as int),
{
    assert(spec_selection(c, toks) =~= toks.subrange(
        toks.len() + c.start,
        toks.len() as int,
    ));
}

/// A range open at the start with a negative end keeps every token up to and
/// including the resolved end index, in arrival order.
pub proof fn lemma_open_start_prefix<T>(c: Choice, toks: Seq<T>)
    requires
        c.start == 0,
        c.end < 0,
        toks.len() + c.end > 0,
    ensures
        spec_selection(c, toks) == toks.subrange(0, toks.len() + c.end + 1),
{
    assert(spec_selection(c, toks) =~= toks.subrange(0, toks.len() + c.end + 1));
}

} // verus!
