//! Set-once cells.
//!
//! State that is published once during boot and then only read.  A `Once`
//! is written by one owner, before anyone else can observe it; a second
//! write is refused and hands the value back rather than dropping it.

use vstd::prelude::*;

verus! {

/// A cell that can be written once and read freely thereafter.
pub struct Once<T> {
    value: Option<T>,
}

impl<T> View for Once<T> {
    type V = Option<T>;

    closed spec fn view(&self) -> Option<T> {
        self.value
    }
}

impl<T> Once<T> {
    pub fn new() -> (r: Self)
        ensures
            r@ == None::<T>,
    {
        Self { value: None }
    }

    /// Publish `value`, returning a reference to it, or `Err(value)`,
    /// handed back and not dropped, when the cell was already written.
    pub fn set(&mut self, value: T) -> (r: Result<&T, T>)
        ensures
            final(self)@ == after_set(old(self)@, value),
            old(self)@ is None ==> (r matches Ok(v) && *v == value),
            old(self)@ is Some ==> r == Err::<&T, T>(value),
    {
        if self.value.is_some() {
            return Err(value);
        }
        self.value = Some(value);
        Ok(self.value.as_ref().unwrap())
    }

    /// The published value, or `None` if it has not been set yet.
    pub fn get(&self) -> (r: Option<&T>)
        ensures
            match self@ {
                Some(v) => (r matches Some(x) && *x == v),
                None => r is None,
            },
    {
        match &self.value {
            Some(v) => Some(v),
            None => None,
        }
    }
}

impl<T> Default for Once<T> {
    fn default() -> (r: Self)
        ensures
            r@ == None::<T>,
    {
        Self::new()
    }
}

/// The cell's contents after a `set` of `v`: the first write is kept.
pub open spec fn after_set<T>(cell: Option<T>, v: T) -> Option<T> {
    match cell {
        Some(x) => Some(x),
        None => Some(v),
    }
}

/// The first write wins: once a value is published, every later `set`
/// leaves it in place, so reading returns the first value.
pub proof fn lemma_first_write_stands<T>(first: T, later: Seq<T>)
    ensures
        later.fold_left(after_set(None, first), |c: Option<T>, v: T| after_set(c, v)) == Some(first),
    decreases later.len(),
{
    if later.len() > 0 {
        lemma_first_write_stands(first, later.drop_last());
    }
}

} // verus!
