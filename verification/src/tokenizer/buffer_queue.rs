//! Input that waits to be tokenized, in the pieces in which it came.

use vstd::prelude::*;
use std::collections::VecDeque;
use crate::util::smallcharset::SmallCharSet;
use crate::util::str::{from_chars, to_chars};

verus! {

/// One piece of input: the characters from `pos` on are still to be read.
struct Buffer {
    pos: usize,
    buf: Vec<char>,
}

impl Buffer {
    spec fn wf(self) -> bool {
        self.pos < self.buf@.len()
    }

    spec fn rest(self) -> Seq<char> {
        self.buf@.skip(self.pos as int)
    }
}

/// The result of `pop_except_from`: a single character that ends a run, or a
/// run of others.
#[derive(Debug)]
pub enum SetResult {
    FromSet(char),
    NotFromSet(String),
}

/// The contents of a `SetResult`.
pub enum SetResultView {
    FromSet(char),
    NotFromSet(Seq<char>),
}

impl View for SetResult {
    type V = SetResultView;

    open spec fn view(&self) -> SetResultView {
        match *self {
            SetResult::FromSet(c) => SetResultView::FromSet(c),
            SetResult::NotFromSet(s) => SetResultView::NotFromSet(s@),
        }
    }
}

/// A queue of pieces of input. None of the pieces is ever empty.
pub struct BufferQueue {
    buffers: VecDeque<Buffer>,
}

/// Is every piece non-empty?
pub open spec fn no_empty(input: Seq<Seq<char>>) -> bool {
    forall|i: int| 0 <= i < input.len() ==> (#[trigger] input[i]).len() > 0
}

/// All the characters of the pieces, in order.
pub open spec fn joined(input: Seq<Seq<char>>) -> Seq<char>
    decreases input.len(),
{
    if input.len() == 0 {
        Seq::empty()
    } else {
        input[0] + joined(input.drop_first())
    }
}

/// The pieces that are left when the first `n` characters of the first piece
/// are gone.
pub open spec fn drop_from_front(input: Seq<Seq<char>>, n: int) -> Seq<Seq<char>>
    recommends
        input.len() > 0,
        0 <= n <= input[0].len(),
{
    if n >= input[0].len() {
        input.drop_first()
    } else {
        input.update(0, input[0].skip(n))
    }
}

/// The pieces that are left when the first `n` characters of all are gone.
pub open spec fn drop_chars(input: Seq<Seq<char>>, n: nat) -> Seq<Seq<char>>
    decreases n,
{
    if n == 0 || input.len() == 0 {
        input
    } else {
        drop_chars(drop_from_front(input, 1), (n - 1) as nat)
    }
}

/// A piece put before the others, unless it is empty.
pub open spec fn put_front(input: Seq<Seq<char>>, s: Seq<char>) -> Seq<Seq<char>> {
    if s.len() == 0 {
        input
    } else {
        seq![s] + input
    }
}

/// A piece put after the others, unless it is empty.
pub open spec fn put_back(input: Seq<Seq<char>>, s: Seq<char>) -> Seq<Seq<char>> {
    if s.len() == 0 {
        input
    } else {
        input.push(s)
    }
}

/// How many characters from the start of `s` are outside `set`?
pub open spec fn outside_len(s: Seq<char>, set: Set<char>) -> nat
    decreases s.len(),
{
    if s.len() == 0 || set.contains(s[0]) {
        0
    } else {
        1 + outside_len(s.drop_first(), set)
    }
}

/// The characters counted by `outside_len` are outside the set, and the next one
/// is not.
pub proof fn lemma_outside_len(s: Seq<char>, set: Set<char>)
    ensures
        outside_len(s, set) <= s.len(),
        forall|i: int| 0 <= i < outside_len(s, set) ==> !set.contains(#[trigger] s[i]),
        outside_len(s, set) < s.len() ==> set.contains(s[outside_len(s, set) as int]),
    decreases s.len(),
{
    if !(s.len() == 0 || set.contains(s[0])) {
        let t = s.drop_first();
        lemma_outside_len(t, set);
        assert forall|i: int| 0 <= i < outside_len(s, set) implies !set.contains(
            #[trigger] s[i],
        ) by {
            if i > 0 {
                assert(t[i - 1] == s[i]);
            }
        }
        if outside_len(s, set) < s.len() {
            assert(t[outside_len(t, set) as int] == s[outside_len(s, set) as int]);
        }
    }
}

/// The characters of a queue of non-empty pieces, when it has any, begin with
/// the first of the first piece.
pub proof fn lemma_joined_first(input: Seq<Seq<char>>)
    requires
        no_empty(input),
    ensures
        input.len() == 0 <==> joined(input).len() == 0,
        input.len() > 0 ==> {
            &&& joined(input)[0] == input[0][0]
            &&& no_empty(drop_from_front(input, 1))
            &&& joined(drop_from_front(input, 1)) == joined(input).drop_first()
        },
{
    if input.len() > 0 {
        lemma_joined_drop(input, 1);
        assert(joined(input).skip(1) =~= joined(input).drop_first());
    }
}

/// Taking `n` characters from the first piece takes them from the whole.
pub proof fn lemma_joined_drop(input: Seq<Seq<char>>, n: int)
    requires
        no_empty(input),
        input.len() > 0,
        0 <= n <= input[0].len(),
    ensures
        no_empty(drop_from_front(input, n)),
        joined(drop_from_front(input, n)) == joined(input).skip(n),
        joined(input).take(n) == input[0].take(n),
        joined(input).len() >= n,
{
    let d = drop_from_front(input, n);
    if n >= input[0].len() {
        assert(joined(d) =~= joined(input).skip(n));
    } else {
        assert(d.drop_first() =~= input.drop_first());
        assert(joined(d) =~= joined(input).skip(n));
    }
    assert(joined(input).take(n) =~= input[0].take(n));
}

/// Putting a piece in front puts its characters in front.
pub proof fn lemma_joined_put_front(input: Seq<Seq<char>>, s: Seq<char>)
    requires
        no_empty(input),
    ensures
        no_empty(put_front(input, s)),
        joined(put_front(input, s)) == s + joined(input),
{
    let p = put_front(input, s);
    if s.len() > 0 {
        assert(p.drop_first() =~= input);
    }
    assert(joined(p) =~= s + joined(input));
}

/// Putting a piece at the back puts its characters at the back.
pub proof fn lemma_joined_put_back(input: Seq<Seq<char>>, s: Seq<char>)
    requires
        no_empty(input),
    ensures
        no_empty(put_back(input, s)),
        joined(put_back(input, s)) == joined(input) + s,
    decreases input.len(),
{
    if s.len() == 0 {
        assert(joined(input) + s =~= joined(input));
    } else if input.len() == 0 {
        assert(input.push(s).drop_first() =~= input);
        assert(joined(input.push(s)) =~= joined(input) + s);
    } else {
        assert(no_empty(input.drop_first()));
        lemma_joined_put_back(input.drop_first(), s);
        assert(input.push(s).drop_first() =~= input.drop_first().push(s));
        assert(joined(input.push(s)) =~= joined(input) + s);
    }
}

/// Dropping `n` characters drops them from the whole.
pub proof fn lemma_joined_drop_chars(input: Seq<Seq<char>>, n: nat)
    requires
        no_empty(input),
        n <= joined(input).len(),
    ensures
        no_empty(drop_chars(input, n)),
        joined(drop_chars(input, n)) == joined(input).skip(n as int),
    decreases n,
{
    if n == 0 || input.len() == 0 {
        assert(joined(input).skip(n as int) =~= joined(input));
    } else {
        lemma_joined_first(input);
        lemma_joined_drop_chars(drop_from_front(input, 1), (n - 1) as nat);
        assert(joined(input).drop_first().skip(n - 1) =~= joined(input).skip(n as int));
    }
}

impl View for BufferQueue {
    type V = Seq<Seq<char>>;

    closed spec fn view(&self) -> Seq<Seq<char>> {
        self.buffers@.map_values(|b: Buffer| b.rest())
    }
}

impl BufferQueue {
    /// No piece has been read to its end.
    pub closed spec fn wf(self) -> bool {
        forall|i: int| 0 <= i < self.buffers@.len() ==> (#[trigger] self.buffers@[i]).wf()
    }

    /// The pieces of a well-formed queue are not empty.
    pub proof fn lemma_no_empty(self)
        requires
            self.wf(),
        ensures
            no_empty(self@),
    {
        assert forall|i: int| 0 <= i < self@.len() implies (#[trigger] self@[i]).len() > 0 by {
            assert(self.buffers@[i].wf());
        }
    }

    /// A queue without input.
    pub fn new() -> (r: BufferQueue)
        ensures
            r.wf(),
            r@ == Seq::<Seq<char>>::empty(),
    {
        let r = BufferQueue { buffers: VecDeque::new() };
        assert(r@ =~= Seq::<Seq<char>>::empty());
        r
    }

    /// Add input at the end, without its first `skip` characters.
    pub fn push_back(&mut self, buf: &str, skip: usize)
        requires
            old(self).wf(),
            skip <= buf@.len(),
        ensures
            final(self).wf(),
            final(self)@ == put_back(old(self)@, buf@.skip(skip as int)),
    {
        let chars = to_chars(buf);
        if skip < chars.len() {
            self.buffers.push_back(Buffer { pos: skip, buf: chars });
            assert(self@ =~= old(self)@.push(buf@.skip(skip as int)));
        }
    }

    /// Put input back, to be read before anything else.
    pub fn push_front(&mut self, buf: &str)
        requires
            old(self).wf(),
        ensures
            final(self).wf(),
            final(self)@ == put_front(old(self)@, buf@),
    {
        let chars = to_chars(buf);
        if chars.len() > 0 {
            self.buffers.push_front(Buffer { pos: 0, buf: chars });
            assert(buf@.skip(0) =~= buf@);
            assert(self.buffers@[0].rest() =~= buf@);
            assert(self@ =~= seq![buf@] + old(self)@);
        }
    }

    /// Are there at least `n` characters?
    pub fn has(&self, n: usize) -> (r: bool)
        requires
            self.wf(),
        ensures
            r == (joined(self@).len() >= n),
    {
        let mut want: usize = n;
        let mut i: usize = 0;
        assert(self@.skip(0) =~= self@);
        while i < self.buffers.len()
            invariant
                self.wf(),
                i <= self.buffers@.len(),
                want <= n,
                joined(self@).len() == (n - want) + joined(self@.skip(i as int)).len(),
            decreases self.buffers@.len() - i,
        {
            let b = &self.buffers[i];
            assert(self.buffers@[i as int].wf());
            let here: usize = b.buf.len() - b.pos;
            proof {
                let s = self@.skip(i as int);
                assert(s[0] == self.buffers@[i as int].rest());
                assert(s.drop_first() =~= self@.skip(i + 1));
            }
            if here >= want {
                return true;
            }
            want -= here;
            i += 1;
        }
        assert(self@.skip(i as int) =~= Seq::<Seq<char>>::empty());
        want == 0
    }

    /// Look at the next character, without consuming it.
    pub fn peek(&self) -> (r: Option<char>)
        requires
            self.wf(),
        ensures
            r == (if self@.len() == 0 {
                None
            } else {
                Some(self@[0][0])
            }),
    {
        if self.buffers.len() == 0 {
            None
        } else {
            let b = &self.buffers[0];
            assert(self.buffers@[0].wf());
            Some(b.buf[b.pos])
        }
    }

    /// Take the next character.
    pub fn next(&mut self) -> (r: Option<char>)
        requires
            old(self).wf(),
        ensures
            final(self).wf(),
            old(self)@.len() == 0 ==> r is None && final(self)@ == old(self)@,
            old(self)@.len() > 0 ==> r == Some(old(self)@[0][0]) && final(self)@
                == drop_from_front(old(self)@, 1),
    {
        match self.buffers.pop_front() {
            None => None,
            Some(mut b) => {
                assert(old(self).buffers@[0].wf());
                let ghost b0 = b;
                let len: usize = b.buf.len();
                let c = b.buf[b.pos];
                b.pos += 1;
                assert forall|i: int| 0 <= i < self.buffers@.len() implies (
                #[trigger] self.buffers@[i]).wf() by {
                    assert(old(self).buffers@[i + 1].wf());
                }
                let ghost mid = *self;
                assert(mid@ =~= old(self)@.drop_first());
                if b.pos < len {
                    assert(b.rest() =~= b0.rest().skip(1));
                    self.buffers.push_front(b);
                    assert forall|i: int| 0 <= i < self.buffers@.len() implies (
                    #[trigger] self.buffers@[i]).wf() by {
                        if i > 0 {
                            assert(mid.buffers@[i - 1].wf());
                        }
                    }
                    assert(self@ =~= old(self)@.update(0, b0.rest().skip(1)));
                }
                Some(c)
            },
        }
    }

    /// Take the next `n` characters, if there are that many.
    pub fn pop_front(&mut self, n: usize) -> (r: Option<String>)
        requires
            old(self).wf(),
        ensures
            final(self).wf(),
            joined(old(self)@).len() < n ==> r is None && final(self)@ == old(self)@,
            joined(old(self)@).len() >= n ==> r is Some && r->0@ == joined(old(self)@).take(
                n as int,
            ) && final(self)@ == drop_chars(old(self)@, n as nat),
    {
        if !self.has(n) {
            return None;
        }
        let mut s = String::new();
        let mut i: usize = 0;
        assert(joined(self@).skip(0) =~= joined(self@));
        assert(s@ =~= joined(self@).take(0));
        while i < n
            invariant
                self.wf(),
                i <= n <= joined(old(self)@).len(),
                s@ == joined(old(self)@).take(i as int),
                joined(self@) == joined(old(self)@).skip(i as int),
                drop_chars(old(self)@, n as nat) == drop_chars(self@, (n - i) as nat),
            decreases n - i,
        {
            proof {
                self.lemma_no_empty();
                lemma_joined_first(self@);
                let j = joined(old(self)@);
                assert(j.skip(i as int)[0] == j[i as int]);
                assert(j.take(i + 1) =~= j.take(i as int).push(j[i as int]));
                assert(j.skip(i as int).drop_first() =~= j.skip(i + 1));
            }
            match self.next() {
                Some(c) => {
                    s.push(c);
                },
                None => {},
            }
            i += 1;
        }
        Some(s)
    }

    /// Take either one character of `set`, or the longest run of others that the
    /// first piece begins with.
    pub fn pop_except_from(&mut self, set: SmallCharSet) -> (r: Option<SetResult>)
        requires
            old(self).wf(),
        ensures
            final(self).wf(),
            old(self)@.len() == 0 ==> r is None && final(self)@ == old(self)@,
            old(self)@.len() > 0 ==> {
                let n = outside_len(old(self)@[0], set@);
                &&& r is Some
                &&& n == 0 ==> r->0@ == SetResultView::FromSet(old(self)@[0][0])
                    && final(self)@ == drop_from_front(old(self)@, 1)
                &&& n > 0 ==> r->0@ == SetResultView::NotFromSet(old(self)@[0].take(n as int))
                    && final(self)@ == drop_from_front(old(self)@, n as int)
            },
    {
        match self.buffers.pop_front() {
            None => None,
            Some(mut b) => {
                assert(old(self).buffers@[0].wf());
                let ghost b0 = b;
                let ghost first = b.rest();
                assert(old(self)@[0] == first);
                assert forall|i: int| 0 <= i < self.buffers@.len() implies (
                #[trigger] self.buffers@[i]).wf() by {
                    assert(old(self).buffers@[i + 1].wf());
                }
                let ghost mid = *self;
                assert(mid@ =~= old(self)@.drop_first());
                let start: usize = b.pos;
                let mut end: usize = start;
                proof {
                    lemma_outside_len(first, set@);
                }
                let ghost n = outside_len(first, set@);
                while end < b.buf.len() && !set.contains(b.buf[end])
                    invariant
                        b == b0,
                        start == b.pos,
                        first == b.rest(),
                        start <= end <= b.buf@.len(),
                        n == outside_len(first, set@),
                        end - start <= n <= first.len(),
                        forall|i: int| 0 <= i < n ==> !set@.contains(#[trigger] first[i]),
                        n < first.len() ==> set@.contains(first[n as int]),
                    decreases b.buf@.len() - end,
                {
                    assert(first[end - start] == b.buf@[end as int]);
                    end += 1;
                }
                assert(end - start == n) by {
                    if end < b.buf@.len() {
                        assert(first[end - start] == b.buf@[end as int]);
                    }
                }
                let ghost taken = if n == 0 {
                    1int
                } else {
                    n as int
                };
                let r = if end > start {
                    let run = from_chars(&b.buf, start, end);
                    assert(run@ =~= first.take(n as int));
                    b.pos = end;
                    SetResult::NotFromSet(run)
                } else {
                    let c = b.buf[start];
                    assert(c == first[0]);
                    b.pos = start + 1;
                    SetResult::FromSet(c)
                };
                if b.pos < b.buf.len() {
                    assert(b.rest() =~= first.skip(taken));
                    self.buffers.push_front(b);
                    assert forall|i: int| 0 <= i < self.buffers@.len() implies (
                    #[trigger] self.buffers@[i]).wf() by {
                        if i > 0 {
                            assert(mid.buffers@[i - 1].wf());
                        }
                    }
                    assert(self@ =~= old(self)@.update(0, first.skip(taken)));
                }
                Some(r)
            },
        }
    }
}

} // verus!
