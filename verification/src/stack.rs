use vstd::prelude::*;

verus! {

/// Largest number of elements that a stack holds.
pub const STACK_MAX: usize = 256;

/// The error of a push onto a full stack.
#[derive(Clone, Copy, Debug, PartialEq, Eq, Structural)]
pub struct StackOverflow;

/// A last-in, first-out store of at most [`STACK_MAX`] elements. Its view
/// lists the elements from the bottom to the top.
pub struct Stack<T> {
    items: Vec<T>,
}

impl<T> View for Stack<T> {
    type V = Seq<T>;

    closed spec fn view(&self) -> Seq<T> {
        self.items@
    }
}

impl<T> Stack<T> {
    /// Largest number of elements that a stack holds.
    pub const MAX: usize = STACK_MAX;

    /// Well-formedness: the stack holds no more than [`STACK_MAX`]
    /// elements.
    pub open spec fn wf(&self) -> bool {
        self@.len() <= STACK_MAX
    }

    /// An empty stack with room for [`STACK_MAX`] elements.
    pub fn new() -> (stack: Self)
        ensures
            stack.wf(),
            stack@ == Seq::<T>::empty(),
    {
        Stack { items: Vec::with_capacity(STACK_MAX) }
    }

    /// Puts `elem` on top; a full stack refuses it and stays as it is.
    pub fn push(&mut self, elem: T) -> (pushed: Result<(), StackOverflow>)
        ensures
            old(self)@.len() < STACK_MAX ==> pushed.is_ok() && final(self)@ == old(self)@.push(
                elem,
            ),
            old(self)@.len() >= STACK_MAX ==> pushed.is_err() && final(self)@ == old(self)@,
            old(self).wf() ==> final(self).wf(),
    {
        if self.items.len() >= STACK_MAX {
            Err(StackOverflow)
        } else {
            self.items.push(elem);
            Ok(())
        }
    }

    /// Takes the top element off; an empty stack gives `None`.
    pub fn pop(&mut self) -> (top: Option<T>)
        ensures
            old(self)@.len() == 0 ==> top.is_none() && final(self)@ == old(self)@,
            old(self)@.len() > 0 ==> top == Some(old(self)@.last()) && final(self)@ == old(
                self,
            )@.drop_last(),
            old(self).wf() ==> final(self).wf(),
    {
        let top = self.items.pop();
        proof {
            if old(self).items@.len() == 0 {
                assert(self.items@ =~= old(self).items@);
            }
        }
        top
    }

    /// Replaces the top element by what `f` makes of it and tells whether
    /// there was one; an empty stack stays empty and `f` is not called.
    pub fn mutate<F: FnOnce(T) -> T>(&mut self, f: F) -> (applied: bool)
        requires
            old(self)@.len() > 0 ==> call_requires(f, (old(self)@.last(),)),
        ensures
            applied == (old(self)@.len() > 0),
            !applied ==> final(self)@ == old(self)@,
            applied ==> final(self)@.len() == old(self)@.len() && final(self)@.drop_last() == old(
                self,
            )@.drop_last() && call_ensures(f, (old(self)@.last(),), final(self)@.last()),
            old(self).wf() ==> final(self).wf(),
    {
        match self.items.pop() {
            None => {
                proof {
                    assert(self.items@ =~= old(self).items@);
                }
                false
            },
            Some(top) => {
                let changed = f(top);
                self.items.push(changed);
                proof {
                    assert(self.items@.drop_last() =~= old(self).items@.drop_last());
                }
                true
            },
        }
    }

    /// Takes every element off.
    pub fn empty(&mut self)
        ensures
            final(self)@ == Seq::<T>::empty(),
            final(self).wf(),
    {
        self.items.clear();
    }

    /// Whether the stack holds no element.
    pub fn is_empty(&self) -> (b: bool)
        ensures
            b == (self@.len() == 0),
    {
        self.items.len() == 0
    }

    /// Number of elements held.
    pub fn size(&self) -> (n: usize)
        ensures
            n == self@.len(),
    {
        self.items.len()
    }

    /// The top element, if there is one.
    pub fn peek(&self) -> (top: Option<&T>)
        ensures
            self@.len() == 0 ==> top.is_none(),
            self@.len() > 0 ==> top.is_some() && *top.unwrap() == self@.last(),
    {
        if self.items.len() == 0 {
            None
        } else {
            Some(&self.items[self.items.len() - 1])
        }
    }
}

impl<T: Copy> Stack<T> {
    /// A copy of the elements, from the bottom to the top.
    pub fn snapshot(&self) -> (copy: Vec<T>)
        ensures
            copy@ == self@,
    {
        let mut copy: Vec<T> = Vec::new();
        let mut i: usize = 0;
        while i < self.items.len()
            invariant
                i <= self.items@.len(),
                copy@ == self.items@.subrange(0, i as int),
            decreases self.items@.len() - i,
        {
            copy.push(self.items[i]);
            i += 1;
            proof {
                assert(copy@ =~= self.items@.subrange(0, i as int));
            }
        }
        proof {
            assert(self.items@.subrange(0, i as int) =~= self.items@);
        }
        copy
    }
}

/// An element that a stack can show in its listing.
pub trait FmtStackElement {
    /// The text that stands for the element.
    spec fn text(&self) -> Seq<char>;

    /// Builds the text that stands for the element.
    fn fmt_to_string(&self) -> (s: String)
        ensures
            s@ == self.text(),
    ;
}

impl FmtStackElement for &str {
    /// A string is shown between double quotes.
    open spec fn text(&self) -> Seq<char> {
        seq!['"'] + self@ + seq!['"']
    }

    fn fmt_to_string(&self) -> (s: String) {
        let mut s = String::new();
        s.push('"');
        s.append(self);
        s.push('"');
        proof {
            assert(s@ =~= seq!['"'] + self@ + seq!['"']);
        }
        s
    }
}

/// The texts of `items`, each after the first preceded by a comma and a
/// space.
pub open spec fn comma_separated(items: Seq<Seq<char>>) -> Seq<char>
    decreases items.len(),
{
    if items.len() == 0 {
        Seq::empty()
    } else if items.len() == 1 {
        items[0]
    } else {
        comma_separated(items.drop_last()) + seq![',', ' '] + items.last()
    }
}

/// The listing of a stack: the texts of its elements from the bottom to
/// the top, separated by commas, between square brackets.
pub open spec fn listing(items: Seq<Seq<char>>) -> Seq<char> {
    seq!['['] + comma_separated(items) + seq![']']
}

impl<T: FmtStackElement> Stack<T> {
    /// The texts of the elements, from the bottom to the top.
    pub open spec fn texts(&self) -> Seq<Seq<char>> {
        Seq::new(self@.len(), |i: int| self@[i].text())
    }

    /// The listing of the stack, as [`listing`] defines it.
    pub fn render(&self) -> (s: String)
        ensures
            s@ == listing(self.texts()),
    {
        let mut s = String::new();
        s.push('[');
        let mut i: usize = 0;
        while i < self.items.len()
            invariant
                i <= self.items@.len(),
                s@ == seq!['['] + comma_separated(self.texts().take(i as int)),
            decreases self.items@.len() - i,
        {
            if i > 0 {
                s.push(',');
                s.push(' ');
            }
            let text = self.items[i].fmt_to_string();
            s.append(text.as_str());
            proof {
                let done = self.texts().take(i as int);
                let next = self.texts().take(i + 1);
                assert(next.drop_last() =~= done);
                assert(next.last() == self@[i as int].text());
                assert(s@ =~= seq!['['] + comma_separated(next));
            }
            i += 1;
        }
        s.push(']');
        proof {
            assert(self.texts().take(i as int) =~= self.texts());
        }
        s
    }
}

} // verus!
