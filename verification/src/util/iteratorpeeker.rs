//! A source of items with lookahead, and what it does for a source of
//! characters.

use vstd::prelude::*;
use crate::unicode::whitespace;

verus! {

/// Whether a line terminator opens `s`: a line feed, or a carriage return
/// directly followed by a line feed.
pub open spec fn at_line_end(s: Seq<char>) -> bool {
    s.len() > 0 && (s[0] == '\n' || (s[0] == '\r' && s.len() > 1 && s[1] == '\n'))
}

/// Whether the first character of `s` is whitespace within a line: whitespace
/// that does not open a line terminator.
pub open spec fn at_blank(s: Seq<char>) -> bool {
    s.len() > 0 && whitespace(s[0]) && !at_line_end(s)
}

/// What is left of `s` once the whitespace that opens it is dropped, up to
/// but not including the first line terminator.
pub open spec fn skip_blank(s: Seq<char>) -> Seq<char>
    decreases s.len(),
{
    if at_blank(s) {
        skip_blank(s.drop_first())
    } else {
        s
    }
}

/// A source of items which supports peeking.
///
/// Items that were read ahead are kept on a stack, the next one on top, and
/// are handed out again before the source is read any further.
pub struct IteratorPeeker<T> {
    source: Vec<T>,
    position: usize,
    stack: Vec<T>,
}

impl<T> View for IteratorPeeker<T> {
    type V = Seq<T>;

    /// The items that are still to come, in the order in which `next` hands
    /// them out.
    closed spec fn view(&self) -> Seq<T> {
        Seq::new(
            (self.stack.len() + self.unread().len()) as nat,
            |i: int|
                if i < self.stack.len() {
                    self.stack[self.stack.len() - 1 - i]
                } else {
                    self.unread()[i - self.stack.len()]
                },
        )
    }
}

impl<T> IteratorPeeker<T> {
    /// The part of the source that was not read yet.
    spec fn unread(&self) -> Seq<T> {
        if self.position <= self.source.len() {
            self.source@.skip(self.position as int)
        } else {
            Seq::empty()
        }
    }
}

impl<T: Copy> IteratorPeeker<T> {
    /// Creates a peeker over `items`.
    pub fn new(items: Vec<T>) -> (peeker: IteratorPeeker<T>)
        ensures
            peeker@ == items@,
    {
        let peeker = IteratorPeeker { source: items, position: 0, stack: Vec::new() };
        assert(peeker@ =~= items@);
        peeker
    }

    /// Takes the next item out of the source.
    pub fn next(&mut self) -> (c: Option<T>)
        ensures
            old(self)@.len() == 0 ==> c is None && final(self)@ == old(self)@,
            old(self)@.len() > 0 ==> c == Some(old(self)@[0]) && final(self)@ == old(
                self,
            )@.drop_first(),
    {
        match self.stack.pop() {
            Some(val) => {
                assert(self@ =~= old(self)@.drop_first());
                Some(val)
            },
            None => {
                if self.position < self.source.len() {
                    let val = self.source[self.position];
                    self.position = self.position + 1;
                    assert(self@ =~= old(self)@.drop_first());
                    Some(val)
                } else {
                    assert(self@ =~= old(self)@);
                    None
                }
            },
        }
    }

    /// Looks at the next item without taking it.
    pub fn peek(&mut self) -> (c: Option<T>)
        ensures
            final(self)@ == old(self)@,
            c == if old(self)@.len() > 0 {
                Some(old(self)@[0])
            } else {
                None
            },
    {
        let val = match self.next() {
            Some(val) => val,
            None => {
                return None;
            },
        };
        self.push_back(val);
        assert(self@ =~= old(self)@);
        Some(val)
    }

    /// Looks at the item `n` places ahead of the next one without taking
    /// anything.
    pub fn peek_n(&mut self, n: usize) -> (c: Option<T>)
        ensures
            final(self)@ == old(self)@,
            c == if n < old(self)@.len() {
                Some(old(self)@[n as int])
            } else {
                None
            },
    {
        let mut read_elems: Vec<T> = Vec::new();
        while read_elems.len() <= n
            invariant
                read_elems@.len() <= old(self)@.len(),
                read_elems@ == old(self)@.take(read_elems@.len() as int),
                self@ == old(self)@.skip(read_elems@.len() as int),
            ensures
                n < read_elems@.len() || read_elems@.len() == old(self)@.len(),
            decreases self@.len(),
        {
            match self.next() {
                Some(e) => {
                    read_elems.push(e);
                    assert(read_elems@ =~= old(self)@.take(read_elems@.len() as int));
                    assert(self@ =~= old(self)@.skip(read_elems@.len() as int));
                },
                None => {
                    break ;
                },
            }
        }
        let result = if n < read_elems.len() {
            Some(read_elems[n])
        } else {
            None
        };
        let mut i: usize = read_elems.len();
        while i > 0
            invariant
                i <= read_elems@.len() <= old(self)@.len(),
                read_elems@ == old(self)@.take(read_elems@.len() as int),
                self@ == old(self)@.skip(i as int),
            decreases i,
        {
            i = i - 1;
            self.push_back(read_elems[i]);
            assert(self@ =~= old(self)@.skip(i as int));
        }
        result
    }

    /// Puts `c` back in front of what is still to come.
    fn push_back(&mut self, c: T)
        ensures
            final(self)@ == seq![c] + old(self)@,
    {
        self.stack.push(c);
        assert(self@ =~= seq![c] + old(self)@);
    }

    /// Takes the next item and drops it.
    pub fn eat(&mut self)
        ensures
            final(self)@ == if old(self)@.len() > 0 {
                old(self)@.drop_first()
            } else {
                old(self)@
            },
    {
        self.next();
    }

    /// Takes the next `n` items and drops them, or all that are left if those
    /// are fewer.
    pub fn eat_several(&mut self, n: usize)
        ensures
            final(self)@ == if n <= old(self)@.len() {
                old(self)@.skip(n as int)
            } else {
                Seq::<T>::empty()
            },
    {
        let mut i: usize = 0;
        while i < n
            invariant
                i <= n,
                i <= old(self)@.len(),
                self@ == old(self)@.skip(i as int),
            decreases n - i,
        {
            match self.next() {
                Some(_) => {
                    assert(old(self)@.skip(i as int).drop_first() =~= old(self)@.skip(i + 1));
                },
                None => {
                    // we reached the end, might as well stop.
                    assert(self@ =~= Seq::<T>::empty());
                    return ;
                },
            }
            i = i + 1;
        }
    }
}

impl IteratorPeeker<char> {
    /// Drops the whitespace that comes next, but stops in front of a line
    /// terminator, which stays to be peeked at.
    pub fn eat_whitespace_but_line(&mut self)
        ensures
            final(self)@ == skip_blank(old(self)@),
    {
        loop
            invariant
                skip_blank(self@) == skip_blank(old(self)@),
            ensures
                self@ == skip_blank(old(self)@),
            decreases self@.len(),
        {
            let ghost before = self@;
            match self.next() {
                Some(val) => {
                    if val.is_whitespace() {
                        if val == '\r' {
                            match self.peek() {
                                Some('\n') => {
                                    self.push_back(val);
                                    assert(self@ =~= before);
                                    break ;
                                },
                                _ => (),
                            }
                        } else if val == '\n' {
                            self.push_back(val);
                            assert(self@ =~= before);
                            break ;
                        }
                        continue ;
                    } else {
                        self.push_back(val);
                        assert(self@ =~= before);
                        break ;
                    }
                },
                None => {
                    break ;
                },
            }
        }
    }
}

} // verus!
