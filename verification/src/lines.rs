//! Splitting ASCII text into lines.

use vstd::prelude::*;
use vstd::slice::slice_subrange;

verus! {

/// The line feed byte, which ends a line.
pub const LINE_FEED: u8 = 0x0a;

/// The carriage return byte, which may precede a line feed.
pub const CARRIAGE_RETURN: u8 = 0x0d;

/// The index of the first occurrence of `b` in `s`, or `s.len()` if `b`
/// does not occur.
pub open spec fn index_of(s: Seq<u8>, b: u8) -> int
    decreases s.len(),
{
    if s.len() == 0 {
        0
    } else if s[0] == b {
        0
    } else {
        1 + index_of(s.drop_first(), b)
    }
}

/// `index_of` is the one position before which `b` does not occur and
/// at which it occurs or the sequence ends.
pub proof fn lemma_index_of(s: Seq<u8>, b: u8)
    ensures
        0 <= index_of(s, b) <= s.len(),
        forall|j: int| 0 <= j < index_of(s, b) ==> s[j] != b,
        index_of(s, b) < s.len() ==> s[index_of(s, b)] == b,
    decreases s.len(),
{
    if s.len() != 0 && s[0] != b {
        let t = s.drop_first();
        lemma_index_of(t, b);
        assert forall|j: int| 0 <= j < index_of(s, b) implies s[j] != b by {
            if j > 0 {
                assert(t[j - 1] == s[j]);
            }
        }
        assert(index_of(s, b) < s.len() ==> s[index_of(s, b)] == t[index_of(t, b)]);
    }
}

/// A position with the two properties of `lemma_index_of` is `index_of`.
pub proof fn lemma_index_of_is(s: Seq<u8>, b: u8, i: int)
    requires
        0 <= i <= s.len(),
        forall|j: int| 0 <= j < i ==> s[j] != b,
        i < s.len() ==> s[i] == b,
    ensures
        index_of(s, b) == i,
{
    lemma_index_of(s, b);
    let k = index_of(s, b);
    if k < i {
        assert(s[k] == b);
    } else if i < k {
        assert(s[i] == b);
    }
}

/// Finds the first occurrence of `b` in `s`.
pub fn find_byte(s: &[u8], b: u8) -> (i: usize)
    ensures
        i == index_of(s@, b),
        i <= s@.len(),
{
    let mut i: usize = 0;
    while i < s.len() && s[i] != b
        invariant
            i <= s.len(),
            forall|j: int| 0 <= j < i ==> s@[j] != b,
        decreases s.len() - i,
    {
        i += 1;
    }
    proof {
        lemma_index_of_is(s@, b, i as int);
    }
    i
}

/// `line` without one trailing carriage return, if it has one.
pub open spec fn strip_carriage_return(line: Seq<u8>) -> Seq<u8> {
    if line.len() > 0 && line.last() == CARRIAGE_RETURN {
        line.drop_last()
    } else {
        line
    }
}

/// The first line of the non-empty text `s`: everything before the
/// first line feed, less one trailing carriage return; or all of `s`,
/// unchanged, if it holds no line feed.
pub open spec fn first_line(s: Seq<u8>) -> Seq<u8> {
    let end = index_of(s, LINE_FEED);
    if end < s.len() {
        strip_carriage_return(s.take(end))
    } else {
        s
    }
}

/// What is left of `s` after its first line and the line feed that ends
/// it.
pub open spec fn after_first_line(s: Seq<u8>) -> Seq<u8> {
    let end = index_of(s, LINE_FEED);
    if end < s.len() {
        s.skip(end + 1)
    } else {
        Seq::empty()
    }
}

/// The lines of `s`, in order. Empty text has no lines; text that ends
/// with a line feed has no extra empty line after it.
pub open spec fn split_lines(s: Seq<u8>) -> Seq<Seq<u8>>
    decreases s.len(),
    via split_lines_terminates
{
    if s.len() == 0 {
        Seq::empty()
    } else {
        seq![first_line(s)] + split_lines(after_first_line(s))
    }
}

#[via_fn]
proof fn split_lines_terminates(s: Seq<u8>) {
    lemma_index_of(s, LINE_FEED);
}

/// Iterator over the lines of a text.
#[derive(Clone, Copy, Debug)]
pub struct LineIter<'a> {
    string: &'a [u8],
}

impl<'a> View for LineIter<'a> {
    type V = Seq<u8>;

    /// The text that has not been handed out yet.
    closed spec fn view(&self) -> Seq<u8> {
        self.string@
    }
}

impl<'a> LineIter<'a> {
    /// Creates an iterator over the lines of `string`.
    pub fn new(string: &'a [u8]) -> (it: Self)
        ensures
            it@ == string@,
    {
        LineIter { string }
    }

    /// Hands out the next line, or `None` when the text is used up.
    pub fn next(&mut self) -> (r: Option<&'a [u8]>)
        ensures
            match r {
                None => old(self)@.len() == 0 && final(self)@ == old(self)@,
                Some(line) => {
                    &&& old(self)@.len() > 0
                    &&& line@ == first_line(old(self)@)
                    &&& final(self)@ == after_first_line(old(self)@)
                },
            },
    {
        let s = self.string;
        if s.len() == 0 {
            return None;
        }
        let end = find_byte(s, LINE_FEED);
        if end < s.len() {
            let line = slice_subrange(s, 0, end);
            self.string = slice_subrange(s, end + 1, s.len());
            assert(line@ =~= s@.take(end as int));
            assert(self.string@ =~= s@.skip(end + 1));
            if end > 0 && line[end - 1] == CARRIAGE_RETURN {
                let stripped = slice_subrange(line, 0, end - 1);
                assert(stripped@ =~= line@.drop_last());
                Some(stripped)
            } else {
                Some(line)
            }
        } else {
            self.string = slice_subrange(s, 0, 0);
            assert(self.string@ =~= Seq::<u8>::empty());
            Some(s)
        }
    }
}

} // verus!
