//! A single named column of samples, kept in order of arrival.
use vstd::prelude::*;

verus! {

/// One column of data: the samples in the order they were added, and an
/// optional name.
#[derive(Debug, Default, Clone)]
pub struct ColumnData<T> {
    data: Vec<T>,
    name: Option<String>,
}

impl<T> View for ColumnData<T> {
    type V = Seq<T>;

    /// The samples, oldest first.
    closed spec fn view(&self) -> Seq<T> {
        self.data@
    }
}

impl<T> ColumnData<T> {
    /// The column's name, if it has one.
    pub closed spec fn spec_name(&self) -> Option<String> {
        self.name
    }

    /// An empty column with the given name.
    pub fn with_name(name: String) -> (r: Self)
        ensures
            r@ == Seq::<T>::empty(),
            r.spec_name() == Some(name),
    {
        ColumnData { data: Vec::new(), name: Some(name) }
    }

    /// A column without a name that holds `data`.
    pub fn from_vec(data: Vec<T>) -> (r: Self)
        ensures
            r@ == data@,
            r.spec_name() == None::<String>,
    {
        ColumnData { data, name: None }
    }

    /// A copy of the column's name.
    pub fn name(&self) -> (r: Option<String>)
        ensures
            r == self.spec_name(),
    {
        match &self.name {
            Some(n) => Some(n.clone()),
            None => None,
        }
    }

    /// An iterator over the samples, oldest first.
    pub fn iter(&self) -> (r: std::slice::Iter<'_, T>)
        ensures
            vstd::std_specs::iter::IteratorSpec::remaining(&r) == self@.as_ref(),
    {
        self.data.as_slice().iter()
    }

    /// Number of samples.
    pub fn len(&self) -> (r: usize)
        ensures
            r == self@.len(),
    {
        self.data.len()
    }

    /// Drops the oldest sample.
    pub fn pop_first(&mut self)
        requires
            old(self)@.len() > 0,
        ensures
            final(self)@ == old(self)@.drop_first(),
            final(self).spec_name() == old(self).spec_name(),
    {
        self.data.remove(0);
    }

    /// Appends a sample.
    pub fn add(&mut self, element: T)
        ensures
            final(self)@ == old(self)@.push(element),
            final(self).spec_name() == old(self).spec_name(),
    {
        self.data.push(element);
    }

    /// The sample at `index`, or `None` past the end.
    pub fn get(&self, index: usize) -> (r: Option<&T>)
        ensures
            index < self@.len() ==> r == Some(&self@[index as int]),
            index >= self@.len() ==> r == None::<&T>,
    {
        if index < self.data.len() {
            Some(&self.data[index])
        } else {
            None
        }
    }

    /// The samples from position `first` to position `last`, both included;
    /// none when `first` is `last + 1`.
    pub fn get_between(&self, first: usize, last: usize) -> (r: &[T])
        requires
            first <= last + 1,
            last < self@.len(),
        ensures
            r@ == self@.subrange(first as int, last + 1),
    {
        let samples = self.data.as_slice();
        let len = samples.len();
        proof {
            assert(last + 1 <= len);
        }
        vstd::slice::slice_subrange(samples, first, last + 1)
    }

    /// Removes every sample and keeps the name.
    pub fn reset(&mut self)
        ensures
            final(self)@ == Seq::<T>::empty(),
            final(self).spec_name() == old(self).spec_name(),
    {
        self.data = Vec::new();
    }
}

} // verus!
