//! The pipeline splitter: the stages of a command line, cut at the pipes
//! that stand outside quotes.

use vstd::prelude::*;

verus! {

/// Which kinds of quote are open.
pub struct Quotes {
    pub single: bool,
    pub double: bool,
}

/// The quotes that are open after `s`. Each `'` toggles the one flag and each
/// `"` the other; neither kind hides the other.
pub open spec fn quotes_after(s: Seq<u8>) -> Quotes
    decreases s.len(),
{
    if s.len() == 0 {
        Quotes { single: false, double: false }
    } else {
        let q = quotes_after(s.drop_last());
        if s.last() == '\'' as u8 {
            Quotes { single: !q.single, double: q.double }
        } else if s.last() == '"' as u8 {
            Quotes { single: q.single, double: !q.double }
        } else {
            q
        }
    }
}

/// Whether the byte at `i` stands inside quotes.
pub open spec fn masked(s: Seq<u8>, i: int) -> bool {
    quotes_after(s.take(i)).single || quotes_after(s.take(i)).double
}

/// Whether the byte at `i` is a pipe that separates two stages.
pub open spec fn is_separator(s: Seq<u8>, i: int) -> bool {
    0 <= i < s.len() && s[i] == '|' as u8 && !masked(s, i)
}

/// Index of the first separator at or after `i`, or `s.len()`.
pub open spec fn separator_from(s: Seq<u8>, i: int) -> int
    decreases s.len() - i,
{
    if i >= s.len() {
        s.len() as int
    } else if is_separator(s, i) {
        i
    } else {
        separator_from(s, i + 1)
    }
}

/// `separator_from` is the first separator at or after `i`.
pub proof fn lemma_separator_from(s: Seq<u8>, i: int)
    requires
        0 <= i <= s.len(),
    ensures
        i <= separator_from(s, i) <= s.len(),
        forall|j: int| i <= j < separator_from(s, i) ==> !is_separator(s, j),
        separator_from(s, i) < s.len() ==> is_separator(s, separator_from(s, i)),
    decreases s.len() - i,
{
    if i < s.len() && !is_separator(s, i) {
        lemma_separator_from(s, i + 1);
    }
}

/// Any index with the properties of the first separator is the first
/// separator.
pub proof fn lemma_separator_is(s: Seq<u8>, p: int)
    requires
        0 <= p <= s.len(),
        forall|j: int| 0 <= j < p ==> !is_separator(s, j),
        p < s.len() ==> is_separator(s, p),
    ensures
        separator_from(s, 0) == p,
{
    lemma_separator_from(s, 0);
}

/// The stages of `s`: what stands between its separators. A line that ends
/// in a separator has no empty stage after it, and an empty line has no
/// stage at all. Quotes are counted from the start of `s`.
pub open spec fn stages(s: Seq<u8>) -> Seq<Seq<u8>>
    decreases s.len(),
{
    if s.len() == 0 {
        Seq::empty()
    } else {
        let p = separator_from(s, 0);
        if 0 <= p < s.len() {
            seq![s.take(p)] + stages(s.skip(p + 1))
        } else {
            seq![s]
        }
    }
}

/// `s` with every pipe that stands inside quotes replaced by a space.
pub open spec fn unpiped(s: Seq<u8>) -> Seq<u8> {
    Seq::new(
        s.len(),
        |i: int|
            if s[i] == '|' as u8 && masked(s, i) {
                ' ' as u8
            } else {
                s[i]
            },
    )
}

/// What one more byte does to the open quotes.
pub proof fn lemma_quotes_step(s: Seq<u8>, i: int)
    requires
        0 <= i < s.len(),
    ensures
        quotes_after(s.take(i + 1)) == (if s[i] == '\'' as u8 {
            Quotes { single: !quotes_after(s.take(i)).single, double: quotes_after(s.take(i)).double }
        } else if s[i] == '"' as u8 {
            Quotes { single: quotes_after(s.take(i)).single, double: !quotes_after(s.take(i)).double }
        } else {
            quotes_after(s.take(i))
        }),
{
    assert(s.take(i + 1).drop_last() =~= s.take(i));
    assert(s.take(i + 1).last() == s[i]);
}

/// No quote is open at a separator, so counting quotes from the start of
/// the line or from the start of a later stage masks the same bytes.
pub proof fn lemma_quotes_restart(s: Seq<u8>, p: int, i: int)
    requires
        is_separator(s, p),
        p + 1 <= i <= s.len(),
    ensures
        quotes_after(s.skip(p + 1).take(i - p - 1)) == quotes_after(s.take(i)),
    decreases i - p,
{
    let t = s.skip(p + 1);
    if i == p + 1 {
        lemma_quotes_step(s, p);
        assert(t.take(0) =~= Seq::<u8>::empty());
    } else {
        lemma_quotes_restart(s, p, i - 1);
        lemma_quotes_step(s, i - 1);
        lemma_quotes_step(t, i - p - 2);
    }
}

/// The separators of a later stage are separators of the whole line.
pub proof fn lemma_separator_restart(s: Seq<u8>, p: int, i: int)
    requires
        is_separator(s, p),
        p + 1 <= i < s.len(),
    ensures
        is_separator(s.skip(p + 1), i - p - 1) == is_separator(s, i),
{
    lemma_quotes_restart(s, p, i);
}

/// Splits a command line into its stages, one call of `next` at a time.
pub struct SplitCommands<'a> {
    remaining: &'a [u8],
}

impl<'a> View for SplitCommands<'a> {
    type V = Seq<Seq<u8>>;

    /// The stages that are still to come.
    closed spec fn view(&self) -> Seq<Seq<u8>> {
        stages(self.remaining@)
    }
}

impl<'a> SplitCommands<'a> {
    /// The bytes that have not been handed out yet.
    pub closed spec fn rest(&self) -> Seq<u8> {
        self.remaining@
    }

    /// A splitter that has all of `line` before it.
    pub fn new(line: &'a [u8]) -> (out: Self)
        ensures
            out@ == stages(line@),
            out.rest() == line@,
    {
        SplitCommands { remaining: line }
    }

    /// The next stage, or `None` when all have been handed out.
    pub fn next(&mut self) -> (r: Option<&'a [u8]>)
        ensures
            final(self)@ == stages(final(self).rest()),
            old(self)@.len() == 0 ==> r is None && final(self)@ == old(self)@,
            old(self)@.len() > 0 ==> r is Some && r->0@ == old(self)@[0] && final(self)@ == old(
                self,
            )@.drop_first(),
            r is Some ==> r->0@.len() + final(self).rest().len() <= old(self).rest().len(),
            r is None ==> final(self).rest() == old(self).rest(),
    {
        let line = self.remaining;
        let n = line.len();
        if n == 0 {
            return None;
        }
        let mut single = false;
        let mut double = false;
        let mut i: usize = 0;
        assert(line@.take(0) =~= Seq::<u8>::empty());
        while i < n
            invariant
                i <= n,
                0 < n == line@.len(),
                old(self).rest() == line@,
                old(self)@ == stages(line@),
                single == quotes_after(line@.take(i as int)).single,
                double == quotes_after(line@.take(i as int)).double,
                forall|j: int| 0 <= j < i ==> !is_separator(line@, j),
            decreases n - i,
        {
            let b = line[i];
            proof {
                lemma_quotes_step(line@, i as int);
            }
            if b == '\'' as u8 {
                single = !single;
            } else if b == '"' as u8 {
                double = !double;
            } else if b == '|' as u8 && !single && !double {
                proof {
                    lemma_separator_is(line@, i as int);
                    assert(stages(line@) == seq![line@.take(i as int)] + stages(
                        line@.skip(i + 1),
                    ));
                    assert(stages(line@).drop_first() =~= stages(line@.skip(i + 1)));
                }
                self.remaining = &line[i + 1..n];
                assert(self.remaining@ =~= line@.skip(i + 1));
                let stage = &line[0..i];
                assert(stage@ =~= line@.take(i as int));
                return Some(stage);
            }
            i += 1;
        }
        proof {
            lemma_separator_is(line@, n as int);
            assert(stages(line@) == seq![line@]);
            assert(seq![line@].drop_first() =~= Seq::<Seq<u8>>::empty());
        }
        self.remaining = &line[n..n];
        assert(self.remaining@ =~= Seq::<u8>::empty());
        Some(line)
    }

    /// All the stages that are still to come.
    pub fn collect(self) -> (out: Vec<&'a [u8]>)
        ensures
            out@.len() == self@.len(),
            forall|k: int| 0 <= k < out@.len() ==> (#[trigger] out@[k])@ == self@[k],
    {
        let mut it = self;
        let mut out: Vec<&'a [u8]> = Vec::new();
        let ghost all = it@;
        loop
            invariant
                all == self@,
                it@ == stages(it.rest()),
                out@.len() + it@.len() == all.len(),
                forall|k: int| 0 <= k < out@.len() ==> (#[trigger] out@[k])@ == all[k],
                forall|k: int| 0 <= k < it@.len() ==> it@[k] == all[out@.len() + k],
            decreases it@.len(),
        {
            let ghost before = it@;
            match it.next() {
                None => {
                    return out;
                },
                Some(stage) => {
                    proof {
                        assert forall|k: int| 0 <= k < it@.len() implies it@[k] == all[out@.len()
                            + 1 + k] by {
                            assert(it@[k] == before[k + 1]);
                        }
                    }
                    out.push(stage);
                },
            }
        }
    }
}

/// The line with every pipe inside quotes replaced by a space, so that the
/// pipes that are left are the separators.
pub fn clean_line(line: &[u8]) -> (out: Vec<u8>)
    ensures
        out@ == unpiped(line@),
{
    let n = line.len();
    let mut out: Vec<u8> = Vec::with_capacity(n);
    let mut single = false;
    let mut double = false;
    let mut i: usize = 0;
    assert(line@.take(0) =~= Seq::<u8>::empty());
    while i < n
        invariant
            i <= n,
            n == line@.len(),
            single == quotes_after(line@.take(i as int)).single,
            double == quotes_after(line@.take(i as int)).double,
            out@ == unpiped(line@).take(i as int),
        decreases n - i,
    {
        let b = line[i];
        proof {
            lemma_quotes_step(line@, i as int);
        }
        if b == '\'' as u8 {
            single = !single;
            out.push(b);
        } else if b == '"' as u8 {
            double = !double;
            out.push(b);
        } else if b == '|' as u8 && (single || double) {
            out.push(' ' as u8);
        } else {
            out.push(b);
        }
        assert(out@ =~= unpiped(line@).take(i + 1));
        i += 1;
    }
    assert(unpiped(line@).take(n as int) =~= unpiped(line@));
    out
}

} // verus!
