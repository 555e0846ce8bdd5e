use vstd::prelude::*;

use vstd::string::StrSliceExecFns;

verus! {

/// A LIFO stack over a growable array, with an explicit element count.
pub struct Stack<T> {
    size: usize,
    data: Vec<T>,
}

impl<T> View for Stack<T> {
    type V = Seq<T>;

    closed spec fn view(&self) -> Seq<T> {
        self.data@
    }
}

impl<T> Stack<T> {
    /// The count matches the number of stored elements.
    pub closed spec fn wf(&self) -> bool {
        self.size == self.data@.len()
    }

    /// Returns an empty stack.
    pub fn new() -> (r: Self)
        ensures
            r.wf(),
            r@ == Seq::<T>::empty(),
    {
        Self { size: 0, data: Vec::new() }
    }

    /// Reports whether the stack holds no element.
    pub fn is_empty(&self) -> (r: bool)
        requires
            self.wf(),
        ensures
            r == (self@.len() == 0),
    {
        0 == self.size
    }

    /// The number of elements on the stack.
    pub fn len(&self) -> (r: usize)
        requires
            self.wf(),
        ensures
            r == self@.len(),
    {
        self.size
    }

    /// Removes every element.
    pub fn clear(&mut self)
        ensures
            final(self).wf(),
            final(self)@ == Seq::<T>::empty(),
    {
        self.size = 0;
        self.data.clear();
    }

    /// Pushes `val` on top of the stack.
    pub fn push(&mut self, val: T)
        requires
            old(self).wf(),
        ensures
            final(self).wf(),
            final(self)@ == old(self)@.push(val),
    {
        self.data.push(val);
        self.size = self.data.len();
    }

    /// Removes and returns the top element, or `None` when the stack is
    /// empty.
    pub fn pop(&mut self) -> (r: Option<T>)
        requires
            old(self).wf(),
        ensures
            final(self).wf(),
            old(self)@.len() == 0 ==> r is None && final(self)@ == old(self)@,
            old(self)@.len() > 0 ==> r == Some(old(self)@.last()) && final(self)@ == old(
                self,
            )@.drop_last(),
    {
        if self.is_empty() {
            None
        } else {
            self.size = self.size - 1;
            let r = self.data.pop();
            proof {
                assert(self@ =~= old(self)@.drop_last());
            }
            r
        }
    }

    /// Returns the top element without removing it, or `None` when the
    /// stack is empty.
    pub fn peek(&self) -> (r: Option<&T>)
        requires
            self.wf(),
        ensures
            match r {
                Some(v) => self@.len() > 0 && *v == self@.last(),
                None => self@.len() == 0,
            },
    {
        if 0 == self.size {
            return None;
        }
        Some(&self.data[self.size - 1])
    }
}

/// Holds when the brackets in `s` match, scanned from position `pending`
/// characters deep: an opening bracket is stacked, a closing bracket must
/// meet its partner on top of the stack, every other character is ignored,
/// and at the end the stack must be empty.
pub open spec fn scan_ok(s: Seq<char>, pending: Seq<char>) -> bool
    decreases s.len(),
{
    if s.len() == 0 {
        pending.len() == 0
    } else {
        let c = s[0];
        if c == '(' || c == '{' || c == '[' {
            scan_ok(s.drop_first(), pending.push(c))
        } else if c == ')' {
            pending.len() > 0 && pending.last() == '(' && scan_ok(
                s.drop_first(),
                pending.drop_last(),
            )
        } else if c == '}' {
            pending.len() > 0 && pending.last() == '{' && scan_ok(
                s.drop_first(),
                pending.drop_last(),
            )
        } else if c == ']' {
            pending.len() > 0 && pending.last() == '[' && scan_ok(
                s.drop_first(),
                pending.drop_last(),
            )
        } else {
            scan_ok(s.drop_first(), pending)
        }
    }
}

/// Reports whether every bracket in `bracket` is properly matched and
/// nested; characters other than the three bracket pairs are ignored.
pub fn bracket_match(bracket: &str) -> (r: bool)
    ensures
        r == scan_ok(bracket@, Seq::<char>::empty()),
{
    let mut stack: Stack<char> = Stack::new();
    let n = bracket.unicode_len();
    let mut i: usize = 0;
    proof {
        assert(bracket@.skip(0) =~= bracket@);
    }
    while i < n
        invariant
            stack.wf(),
            i <= n,
            n == bracket@.len(),
            scan_ok(bracket@, Seq::<char>::empty()) == scan_ok(bracket@.skip(i as int), stack@),
        decreases n - i,
    {
        let ghost rest = bracket@.skip(i as int);
        let c = bracket.get_char(i);
        proof {
            assert(rest[0] == bracket@[i as int]);
            assert(rest.drop_first() =~= bracket@.skip(i + 1));
        }
        match c {
            '(' | '{' | '[' => {
                stack.push(c);
            },
            ')' => {
                match stack.pop() {
                    Some(t) => {
                        if t != '(' {
                            return false;
                        }
                    },
                    None => {
                        return false;
                    },
                }
            },
            '}' => {
                match stack.pop() {
                    Some(t) => {
                        if t != '{' {
                            return false;
                        }
                    },
                    None => {
                        return false;
                    },
                }
            },
            ']' => {
                match stack.pop() {
                    Some(t) => {
                        if t != '[' {
                            return false;
                        }
                    },
                    None => {
                        return false;
                    },
                }
            },
            _ => {},
        }
        i = i + 1;
    }
    proof {
        assert(bracket@.skip(i as int).len() == 0);
    }
    stack.is_empty()
}

} // verus!
