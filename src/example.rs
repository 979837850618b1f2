//! An example state machine exploring every kind of vertex, in the shape that
//! the code generator emits for it.
use vstd::prelude::*;

verus! {

/// This explores all vertex types.
pub enum State<'a, T> where T: Ord {
    /// Isolated vertex, without data.
    IsolatedEmpty,
    /// Isolated vertex, with data.
    IsolatedWithData(String),
    NonTerminalEmpty,
    /// Non-terminal vertex, with data.
    NonTerminalWithData(Vec<u8>),
    SinkEmpty,
    /// Sink vertex, with data.
    SinkWithData(char),
    SourceEmpty,
    /// Source vertex, with data.
    SourceWithData(&'a mut T),
}

/// Progress through variants of [`State`], created by its [`entry`](State::entry) method.
pub enum StateEntry<'state, 'a, T> where T: Ord {
    /// Represents [`State::IsolatedEmpty`]
    IsolatedEmpty,
    /// Represents [`State::IsolatedWithData`]
    IsolatedWithData(&'state mut String),
    /// Represents [`State::NonTerminalEmpty`]
    NonTerminalEmpty(NonTerminalEmpty<'state, 'a, T>),
    /// Represents [`State::NonTerminalWithData`]
    NonTerminalWithData(NonTerminalWithData<'state, 'a, T>),
    /// Represents [`State::SinkEmpty`]
    SinkEmpty,
    /// Represents [`State::SinkWithData`]
    SinkWithData(&'state mut char),
    /// Represents [`State::SourceEmpty`]
    SourceEmpty(SourceEmpty<'state, 'a, T>),
    /// Represents [`State::SourceWithData`]
    SourceWithData(SourceWithData<'state, 'a, T>),
}

impl<'a, T> State<'a, T> where T: Ord {
    /// Inspect the current state, and obtain a handle for its transitions.
    pub fn entry<'state>(&'state mut self) -> (r: StateEntry<'state, 'a, T>)
        ensures
            (match r {
            StateEntry::IsolatedEmpty => *old(self) is IsolatedEmpty && *final(self) == *old(self),
            StateEntry::IsolatedWithData(it) => *old(self) == State::<'a, T>::IsolatedWithData(*it)
                && *final(self) == State::<'a, T>::IsolatedWithData(*final(it)),
            StateEntry::NonTerminalEmpty(h) => *old(self) is NonTerminalEmpty && h.current()
                == *old(self) && *final(h.0) == *final(self),
            StateEntry::NonTerminalWithData(h) => *old(self) is NonTerminalWithData && h.current()
                == *old(self) && *final(h.0) == *final(self),
            StateEntry::SinkEmpty => *old(self) is SinkEmpty && *final(self) == *old(self),
            StateEntry::SinkWithData(it) => *old(self) == State::<'a, T>::SinkWithData(*it) && *final(self)
                == State::<'a, T>::SinkWithData(*final(it)),
            StateEntry::SourceEmpty(h) => *old(self) is SourceEmpty && h.current() == *old(self)
                && *final(h.0) == *final(self),
            StateEntry::SourceWithData(h) => *old(self) is SourceWithData && h.current() == *old(self)
                && *final(h.0) == *final(self),
        }),
    {
        match self {
            State::IsolatedEmpty => StateEntry::IsolatedEmpty,
            State::IsolatedWithData(it) => StateEntry::IsolatedWithData(it),
            State::NonTerminalEmpty => StateEntry::NonTerminalEmpty(NonTerminalEmpty(self)),
            State::NonTerminalWithData(_) => StateEntry::NonTerminalWithData(
                NonTerminalWithData(self),
            ),
            State::SinkEmpty => StateEntry::SinkEmpty,
            State::SinkWithData(it) => StateEntry::SinkWithData(it),
            State::SourceEmpty => StateEntry::SourceEmpty(SourceEmpty(self)),
            State::SourceWithData(_) => StateEntry::SourceWithData(SourceWithData(self)),
        }
    }
}

/// See [`StateEntry::NonTerminalEmpty`]
pub struct NonTerminalEmpty<'state, 'a, T>(pub &'state mut State<'a, T>) where T: Ord;

/// See [`StateEntry::NonTerminalWithData`]
pub struct NonTerminalWithData<'state, 'a, T>(pub &'state mut State<'a, T>) where T: Ord;

/// See [`StateEntry::SourceEmpty`]
pub struct SourceEmpty<'state, 'a, T>(pub &'state mut State<'a, T>) where T: Ord;

/// See [`StateEntry::SourceWithData`]
pub struct SourceWithData<'state, 'a, T>(pub &'state mut State<'a, T>) where T: Ord;

impl<'state, 'a, T> NonTerminalEmpty<'state, 'a, T> where T: Ord {
    /// The state of the machine when the handle was made.
    pub open spec fn current(&self) -> State<'a, T> {
        *self.0
    }

    /// Transition to [`State::SinkEmpty`]
    pub fn sink_empty(self)
        requires
            self.current() is NonTerminalEmpty,
        ensures
            *final(self.0) is SinkEmpty,
    {
        let mut prev = State::SinkEmpty;
        core::mem::swap(self.0, &mut prev);

    }
}

impl<'state, 'a, T> NonTerminalWithData<'state, 'a, T> where T: Ord {
    /// The state of the machine when the handle was made.
    pub open spec fn current(&self) -> State<'a, T> {
        *self.0
    }

    /// Borrow the data of [`State::NonTerminalWithData`].
    pub fn as_ref(&self) -> (r: &Vec<u8>)
        requires
            self.current() is NonTerminalWithData,
        ensures
            self.current() == State::<'a, T>::NonTerminalWithData(*r),
    {
        match &*self.0 {
            State::NonTerminalWithData(it) => it,
            _ => unreached(),
        }
    }

    /// Borrow the data of [`State::NonTerminalWithData`] for writing.
    pub fn as_mut(&mut self) -> (r: &mut Vec<u8>)
        requires
            old(self).current() is NonTerminalWithData,
        ensures
            old(self).current() == State::<'a, T>::NonTerminalWithData(*r),
            final(self).current() == State::<'a, T>::NonTerminalWithData(*final(r)),
            *final(final(self).0) == *final(old(self).0),
    {
        match &mut *self.0 {
            State::NonTerminalWithData(it) => it,
            _ => unreached(),
        }
    }

    /// Method documentation on a non-renamed method.
    ///
    /// Transition to [`State::SinkWithData`]
    pub fn sink_with_data(self, next: char) -> (r: Vec<u8>)
        requires
            self.current() is NonTerminalWithData,
        ensures
            *final(self.0) == State::<'a, T>::SinkWithData(next),
            self.current() == State::<'a, T>::NonTerminalWithData(r),
    {
        let mut prev = State::SinkWithData(next);
        core::mem::swap(self.0, &mut prev);
        match prev {
            State::NonTerminalWithData(it) => it,
            _ => unreached(),
        }
    }
}

impl<'state, 'a, T> SourceEmpty<'state, 'a, T> where T: Ord {
    /// The state of the machine when the handle was made.
    pub open spec fn current(&self) -> State<'a, T> {
        *self.0
    }

    /// Transition to [`State::NonTerminalEmpty`]
    pub fn non_terminal_empty(self)
        requires
            self.current() is SourceEmpty,
        ensures
            *final(self.0) is NonTerminalEmpty,
    {
        let mut prev = State::NonTerminalEmpty;
        core::mem::swap(self.0, &mut prev);

    }

    /// Transition to [`State::NonTerminalWithData`]
    pub fn non_terminal_with_data(self, next: Vec<u8>)
        requires
            self.current() is SourceEmpty,
        ensures
            *final(self.0) == State::<'a, T>::NonTerminalWithData(next),
    {
        let mut prev = State::NonTerminalWithData(next);
        core::mem::swap(self.0, &mut prev);

    }
}

impl<'state, 'a, T> SourceWithData<'state, 'a, T> where T: Ord {
    /// The state of the machine when the handle was made.
    pub open spec fn current(&self) -> State<'a, T> {
        *self.0
    }

    /// Borrow the data of [`State::SourceWithData`].
    pub fn as_ref(&self) -> (r: &&'a mut T)
        requires
            self.current() is SourceWithData,
        ensures
            self.current() == State::<'a, T>::SourceWithData(*r),
    {
        match &*self.0 {
            State::SourceWithData(it) => it,
            _ => unreached(),
        }
    }

    /// Borrow the data of [`State::SourceWithData`] for writing.
    pub fn as_mut(&mut self) -> (r: &mut &'a mut T)
        requires
            old(self).current() is SourceWithData,
        ensures
            old(self).current() == State::<'a, T>::SourceWithData(*r),
            final(self).current() == State::<'a, T>::SourceWithData(*final(r)),
            *final(final(self).0) == *final(old(self).0),
    {
        match &mut *self.0 {
            State::SourceWithData(it) => it,
            _ => unreached(),
        }
    }

    /// Transition to [`State::NonTerminalEmpty`]
    pub fn non_terminal_empty(self) -> (r: &'a mut T)
        requires
            self.current() is SourceWithData,
        ensures
            *final(self.0) is NonTerminalEmpty,
            *r == *self.current()->SourceWithData_0,
            *final(r) == *final(self.current()->SourceWithData_0),
    {
        let mut prev = State::NonTerminalEmpty;
        core::mem::swap(self.0, &mut prev);
        match prev {
            State::SourceWithData(it) => it,
            _ => unreached(),
        }
    }

    /// Method documentation on renamed method.
    ///
    /// Transition to [`State::NonTerminalWithData`]
    pub fn to_non_terminal_with_data(self, next: Vec<u8>) -> (r: &'a mut T)
        requires
            self.current() is SourceWithData,
        ensures
            *final(self.0) == State::<'a, T>::NonTerminalWithData(next),
            *r == *self.current()->SourceWithData_0,
            *final(r) == *final(self.current()->SourceWithData_0),
    {
        let mut prev = State::NonTerminalWithData(next);
        core::mem::swap(self.0, &mut prev);
        match prev {
            State::SourceWithData(it) => it,
            _ => unreached(),
        }
    }
}

} // verus!
