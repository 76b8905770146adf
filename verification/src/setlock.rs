use vstd::prelude::*;

verus! {

/// Error returned when a write-once cell is assigned a second time.
#[derive(Debug, Clone, Copy, PartialEq, Eq, Structural)]
pub enum SetLockError {
    AlreadySet,
}

/// A single-assignment container: `set` succeeds exactly once, moving the
/// cell from unset to set; every later `set` fails without touching the held
/// value. Used to hand a component a handle that can only exist after the
/// component itself has been constructed.
pub struct SetLock<T> {
    data: Option<T>,
}

impl<T> View for SetLock<T> {
    type V = Option<T>;

    closed spec fn view(&self) -> Option<T> {
        self.data
    }
}

impl<T> SetLock<T> {
    /// Creates an unset cell.
    pub fn new() -> (r: Self)
        ensures
            r@ is None,
    {
        Self { data: None }
    }

    /// Stores `data` if the cell is still unset; a set cell is left exactly
    /// as it was and the call reports `AlreadySet`.
    pub fn set(&mut self, data: T) -> (r: Result<(), SetLockError>)
        ensures
            old(self)@ is None ==> final(self)@ == Some(data) && r is Ok,
            old(self)@ is Some ==> final(self)@ == old(self)@ && r == Err::<(), SetLockError>(
                SetLockError::AlreadySet,
            ),
    {
        if self.data.is_some() {
            return Err(SetLockError::AlreadySet);
        }
        self.data = Some(data);
        Ok(())
    }

    /// Reports whether the cell has been assigned.
    pub fn is_set(&self) -> (r: bool)
        ensures
            r == (self@ is Some),
    {
        self.data.is_some()
    }

    /// Reads the held value; only callable once the cell is set.
    pub fn unwrap(&self) -> (r: &T)
        requires
            self@ is Some,
        ensures
            self@ == Some(*r),
    {
        self.data.as_ref().unwrap()
    }

    /// Borrows the held value mutably; only callable once the cell is set.
    pub fn unwrap_mut(&mut self) -> (r: &mut T)
        requires
            old(self)@ is Some,
        ensures
            old(self)@ == Some(*r),
            final(self)@ == Some(*final(r)),
    {
        self.data.as_mut().unwrap()
    }

    /// Reads the held value, or `None` while the cell is unset.
    pub fn get(&self) -> (r: Option<&T>)
        ensures
            match r {
                Some(v) => self@ == Some(*v),
                None => self@ is None,
            },
    {
        self.data.as_ref()
    }

    /// Borrows the held value mutably, or `None` while the cell is unset.
    pub fn get_mut(&mut self) -> (r: Option<&mut T>)
        ensures
            r is None ==> old(self)@ is None && final(self)@ is None,
            r matches Some(m) ==> old(self)@ == Some(*m) && final(self)@ == Some(*final(m)),
    {
        self.data.as_mut()
    }
}

impl<T> Default for SetLock<T> {
    /// The default cell is unset.
    fn default() -> (r: Self)
        ensures
            r@ is None,
    {
        Self::new()
    }
}

} // verus!
