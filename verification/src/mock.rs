//! Mock services, controllers and spies that record the calls a test tells
//! them about.
use vstd::prelude::*;

verus! {

broadcast use vstd::string::group_string_axioms;

/// The text of each recorded name.
pub open spec fn names_view(v: Seq<String>) -> Seq<Seq<char>> {
    v.map_values(|s: String| s@)
}

/// The text of each recorded call: method and arguments.
pub open spec fn calls_view(v: Seq<(String, Vec<String>)>) -> Seq<(Seq<char>, Seq<Seq<char>>)> {
    v.map_values(|c: (String, Vec<String>)| (c.0@, names_view(c.1@)))
}

/// How many recorded calls are to `method`.
pub open spec fn count_method(calls: Seq<(Seq<char>, Seq<Seq<char>>)>, method: Seq<char>) -> nat
    decreases calls.len(),
{
    if calls.len() == 0 {
        0
    } else {
        count_method(calls.drop_last(), method) + if calls.last().0 == method {
            1nat
        } else {
            0nat
        }
    }
}

/// A copy of a list of names.
fn copy_names(v: &Vec<String>) -> (r: Vec<String>)
    ensures
        names_view(r@) == names_view(v@),
{
    let mut r: Vec<String> = Vec::new();
    let mut i: usize = 0;
    while i < v.len()
        invariant
            i <= v@.len(),
            r@.len() == i,
            forall|j: int| 0 <= j < i ==> #[trigger] r@[j]@ == v@[j]@,
        decreases v@.len() - i,
    {
        r.push(v[i].clone());
        i = i + 1;
    }
    assert(names_view(r@) =~= names_view(v@));
    r
}

/// Whether `name` is among `v`.
fn contains_name(v: &Vec<String>, name: &str) -> (b: bool)
    ensures
        b == names_view(v@).contains(name@),
{
    let target = name.to_string();
    let mut i: usize = 0;
    while i < v.len()
        invariant
            i <= v@.len(),
            target@ == name@,
            forall|j: int| 0 <= j < i ==> #[trigger] v@[j]@ != name@,
        decreases v@.len() - i,
    {
        if v[i].eq(&target) {
            assert(names_view(v@)[i as int] == name@);
            return true;
        }
        i = i + 1;
    }
    assert forall|j: int| 0 <= j < names_view(v@).len() implies names_view(v@)[j] != name@ by {
        assert(names_view(v@)[j] == v@[j]@);
    }
    false
}

/// Mock service for testing: records method names and holds an optional
/// return value.
pub struct MockService<T> {
    calls: Vec<String>,
    return_value: Option<T>,
}

impl<T> MockService<T> {
    /// The recorded calls, in order.
    pub closed spec fn recorded(&self) -> Seq<Seq<char>> {
        names_view(self.calls@)
    }

    /// The configured return value.
    pub closed spec fn return_slot(&self) -> Option<T> {
        self.return_value
    }

    /// A mock with no calls and no return value.
    pub fn new() -> (m: Self)
        ensures
            m.recorded() == Seq::<Seq<char>>::empty(),
            m.return_slot() is None,
    {
        let m = MockService { calls: Vec::new(), return_value: None };
        assert(m.recorded() =~= Seq::<Seq<char>>::empty());
        m
    }

    /// Set the return value.
    pub fn with_return(self, value: T) -> (m: Self)
        ensures
            m.recorded() == self.recorded(),
            m.return_slot() == Some(value),
    {
        MockService { calls: self.calls, return_value: Some(value) }
    }

    /// Record a method call.
    pub fn record_call(&mut self, method: &str)
        ensures
            final(self).recorded() == old(self).recorded().push(method@),
            final(self).return_slot() == old(self).return_slot(),
    {
        self.calls.push(method.to_string());
        assert(names_view(self.calls@) =~= names_view(old(self).calls@).push(method@));
    }

    /// Get the number of calls.
    pub fn call_count(&self) -> (n: usize)
        ensures
            n == self.recorded().len(),
    {
        self.calls.len()
    }

    /// Get all recorded calls.
    pub fn get_calls(&self) -> (calls: Vec<String>)
        ensures
            names_view(calls@) == self.recorded(),
    {
        copy_names(&self.calls)
    }

    /// Check if a method was called.
    pub fn was_called(&self, method: &str) -> (b: bool)
        ensures
            b == self.recorded().contains(method@),
    {
        contains_name(&self.calls, method)
    }

    /// Clear all recorded calls.
    pub fn clear_calls(&mut self)
        ensures
            final(self).recorded() == Seq::<Seq<char>>::empty(),
            final(self).return_slot() == old(self).return_slot(),
    {
        self.calls.clear();
        assert(names_view(self.calls@) =~= Seq::<Seq<char>>::empty());
    }

    /// Get the mock return value.
    pub fn get_return(&self) -> (r: Option<T>) where T: Clone
        ensures
            r is Some <==> self.return_slot() is Some,
            r is Some ==> cloned(self.return_slot().unwrap(), r.unwrap()),
    {
        match &self.return_value {
            Some(v) => Some(v.clone()),
            None => None,
        }
    }
}

impl<T> Default for MockService<T> {
    /// Same as `new`.
    fn default() -> (m: Self)
        ensures
            m.recorded() == Seq::<Seq<char>>::empty(),
            m.return_slot() is None,
    {
        Self::new()
    }
}

/// Mock controller for testing: records method calls with their arguments.
pub struct MockController {
    name: String,
    calls: Vec<(String, Vec<String>)>,
}

impl MockController {
    /// The recorded calls, in order.
    pub closed spec fn recorded(&self) -> Seq<(Seq<char>, Seq<Seq<char>>)> {
        calls_view(self.calls@)
    }

    /// The controller's name.
    pub closed spec fn name(&self) -> Seq<char> {
        self.name@
    }

    /// A controller called `name` with no calls.
    pub fn new(name: &str) -> (c: Self)
        ensures
            c.name() == name@,
            c.recorded() == Seq::<(Seq<char>, Seq<Seq<char>>)>::empty(),
    {
        let c = MockController { name: name.to_string(), calls: Vec::new() };
        assert(c.recorded() =~= Seq::<(Seq<char>, Seq<Seq<char>>)>::empty());
        c
    }

    /// Record a method call with arguments.
    pub fn record_call(&mut self, method: &str, args: Vec<String>)
        ensures
            final(self).recorded() == old(self).recorded().push((method@, names_view(args@))),
            final(self).name() == old(self).name(),
    {
        self.calls.push((method.to_string(), args));
        assert(calls_view(self.calls@) =~= calls_view(old(self).calls@).push(
            (method@, names_view(args@)),
        ));
    }

    /// Get the number of calls to a specific method.
    pub fn method_call_count(&self, method: &str) -> (n: usize)
        ensures
            n == count_method(self.recorded(), method@),
    {
        let target = method.to_string();
        let mut n: usize = 0;
        let mut i: usize = 0;
        while i < self.calls.len()
            invariant
                i <= self.calls@.len(),
                target@ == method@,
                n == count_method(calls_view(self.calls@).subrange(0, i as int), method@),
                n <= i,
            decreases self.calls@.len() - i,
        {
            assert(calls_view(self.calls@).subrange(0, i as int + 1).drop_last()
                =~= calls_view(self.calls@).subrange(0, i as int));
            if self.calls[i].0.eq(&target) {
                n = n + 1;
            }
            i = i + 1;
        }
        assert(calls_view(self.calls@).subrange(0, i as int) =~= calls_view(self.calls@));
        n
    }

    /// Get all calls.
    pub fn get_all_calls(&self) -> (calls: Vec<(String, Vec<String>)>)
        ensures
            calls_view(calls@) == self.recorded(),
    {
        let mut r: Vec<(String, Vec<String>)> = Vec::new();
        let mut i: usize = 0;
        while i < self.calls.len()
            invariant
                i <= self.calls@.len(),
                r@.len() == i,
                forall|j: int|
                    0 <= j < i ==> #[trigger] calls_view(r@)[j] == calls_view(self.calls@)[j],
            decreases self.calls@.len() - i,
        {
            let c = &self.calls[i];
            let m = c.0.clone();
            let a = copy_names(&c.1);
            let ghost before = r@;
            r.push((m, a));
            assert forall|j: int| 0 <= j <= i implies #[trigger] calls_view(r@)[j] == calls_view(
                self.calls@,
            )[j] by {
                if j < i {
                    assert(r@[j] == before[j]);
                    assert(calls_view(before)[j] == calls_view(self.calls@)[j]);
                }
            }
            i = i + 1;
        }
        assert(calls_view(r@) =~= calls_view(self.calls@));
        r
    }

    /// Clear all calls.
    pub fn clear(&mut self)
        ensures
            final(self).recorded() == Seq::<(Seq<char>, Seq<Seq<char>>)>::empty(),
            final(self).name() == old(self).name(),
    {
        self.calls.clear();
        assert(calls_view(self.calls@) =~= Seq::<(Seq<char>, Seq<Seq<char>>)>::empty());
    }
}

/// A provider that can stand in for a real one in tests.
pub trait MockProvider: Clone {
    /// Reset the mock to its initial state.
    fn reset(&mut self);

    /// Get the number of calls.
    fn call_count(&self) -> usize;
}

/// Call recorder that carries a wrapped value alongside it.
///
/// `Spy` is a manual recorder, not a proxy: [`Spy::inner`] hands back the
/// value untouched, and calls made through it are not seen. Recording happens
/// only where [`Spy::record`] is called.
pub struct Spy<T: Clone> {
    inner: T,
    calls: Vec<String>,
}

impl<T: Clone> Spy<T> {
    /// The recorded calls, in order.
    pub closed spec fn recorded(&self) -> Seq<Seq<char>> {
        names_view(self.calls@)
    }

    /// The wrapped value.
    pub closed spec fn wrapped(&self) -> T {
        self.inner
    }

    /// A spy wrapping `inner`, with no calls.
    pub fn new(inner: T) -> (s: Self)
        ensures
            s.wrapped() == inner,
            s.recorded() == Seq::<Seq<char>>::empty(),
    {
        let s = Spy { inner, calls: Vec::new() };
        assert(s.recorded() =~= Seq::<Seq<char>>::empty());
        s
    }

    /// Record a method call.
    pub fn record(&mut self, method: &str)
        ensures
            final(self).recorded() == old(self).recorded().push(method@),
            final(self).wrapped() == old(self).wrapped(),
    {
        self.calls.push(method.to_string());
        assert(names_view(self.calls@) =~= names_view(old(self).calls@).push(method@));
    }

    /// Get the number of recorded calls.
    pub fn call_count(&self) -> (n: usize)
        ensures
            n == self.recorded().len(),
    {
        self.calls.len()
    }

    /// Check if a method was recorded as called.
    pub fn was_called(&self, method: &str) -> (b: bool)
        ensures
            b == self.recorded().contains(method@),
    {
        contains_name(&self.calls, method)
    }

    /// Every recorded call, in order.
    pub fn calls(&self) -> (calls: Vec<String>)
        ensures
            names_view(calls@) == self.recorded(),
    {
        copy_names(&self.calls)
    }

    /// Drop every recorded call.
    pub fn clear(&mut self)
        ensures
            final(self).recorded() == Seq::<Seq<char>>::empty(),
            final(self).wrapped() == old(self).wrapped(),
    {
        self.calls.clear();
        assert(names_view(self.calls@) =~= Seq::<Seq<char>>::empty());
    }

    /// The wrapped value, untouched.
    pub fn inner(&self) -> (r: &T)
        ensures
            *r == self.wrapped(),
    {
        &self.inner
    }
}

/// Law: a recorded call is seen afterwards, and the count grows by one.
pub proof fn lemma_recorded_call_is_seen(calls: Seq<Seq<char>>, method: Seq<char>)
    ensures
        calls.push(method).contains(method),
        calls.push(method).len() == calls.len() + 1,
        forall|other: Seq<char>| calls.contains(other) ==> #[trigger] calls.push(method).contains(
            other,
        ),
{
    assert(calls.push(method)[calls.len() as int] == method);
    assert forall|other: Seq<char>| calls.contains(other) implies #[trigger] calls.push(
        method,
    ).contains(other) by {
        let i = choose|i: int| 0 <= i < calls.len() && calls[i] == other;
        assert(calls.push(method)[i] == other);
    }
}

/// Law: recording a call to `method` raises its count by one and leaves the
/// count of every other method unchanged.
pub proof fn lemma_method_count_after_record(
    calls: Seq<(Seq<char>, Seq<Seq<char>>)>,
    method: Seq<char>,
    args: Seq<Seq<char>>,
    other: Seq<char>,
)
    ensures
        count_method(calls.push((method, args)), method) == count_method(calls, method) + 1,
        other != method ==> count_method(calls.push((method, args)), other) == count_method(
            calls,
            other,
        ),
{
    assert(calls.push((method, args)).drop_last() =~= calls);
}

} // verus!
