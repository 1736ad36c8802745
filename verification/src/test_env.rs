use vstd::prelude::*;

verus! {

/// A set of Python modules to check together: each a module name, a file path, and source.
pub struct TestEnv {
    modules: Vec<(String, String, String)>,
}

/// The source of the stub module `foo`: an overloaded `f` taking `int` or `str`.
pub const OVERLOADED_STUB: &'static str = "
from typing import overload

@overload
def f(x: int) -> int: ...

@overload
def f(x: str) -> str: ...
    ";

impl TestEnv {
    /// The modules, in the order they were added.
    pub closed spec fn modules(&self) -> Seq<(Seq<char>, Seq<char>, Seq<char>)> {
        self.modules@.map_values(|m: (String, String, String)| (m.0@, m.1@, m.2@))
    }

    /// An environment with no modules.
    pub fn new() -> (t: TestEnv)
        ensures
            t.modules() == Seq::<(Seq<char>, Seq<char>, Seq<char>)>::empty(),
    {
        let t = TestEnv { modules: Vec::new() };
        proof {
            assert(t.modules() =~= Seq::<(Seq<char>, Seq<char>, Seq<char>)>::empty());
        }
        t
    }

    /// Adds module `name`, read from `path`, with source `code`.
    pub fn add_with_path(&mut self, name: &str, path: &str, code: &str)
        ensures
            final(self).modules() == old(self).modules().push((name@, path@, code@)),
    {
        self.modules.push((String::from_str(name), String::from_str(path), String::from_str(code)));
        proof {
            assert(self.modules() =~= old(self).modules().push((name@, path@, code@)));
        }
    }

    /// The number of modules.
    pub fn len(&self) -> (n: usize)
        ensures
            n == self.modules().len(),
    {
        self.modules.len()
    }

    /// The name, path and source of the `i`th module.
    pub fn module(&self, i: usize) -> (m: (&str, &str, &str))
        requires
            i < self.modules().len(),
        ensures
            (m.0@, m.1@, m.2@) == self.modules()[i as int],
    {
        let m = &self.modules[i];
        (m.0.as_str(), m.1.as_str(), m.2.as_str())
    }
}

/// An environment holding the stub module `foo` (file `foo.pyi`), which declares an
/// overloaded `f` taking `int` or `str`.
pub fn env_with_stub() -> (t: TestEnv)
    ensures
        t.modules() == seq![("foo"@, "foo.pyi"@, OVERLOADED_STUB@)],
{
    let mut t = TestEnv::new();
    t.add_with_path("foo", "foo.pyi", OVERLOADED_STUB);
    proof {
        assert(t.modules() =~= seq![("foo"@, "foo.pyi"@, OVERLOADED_STUB@)]);
    }
    t
}

} // verus!
