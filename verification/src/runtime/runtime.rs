use vstd::hash_map::StringHashMap;
use vstd::prelude::*;

verus! {

/// The variables of one frame, or the global ones: each name with its value.
pub type Bindings = Map<Seq<char>, i64>;

/// Variable storage for running a program: the global variables, and a
/// stack of frames that hold the local ones.
pub struct Runtime {
    global_memory: StringHashMap<i64>,
    stack: Vec<StringHashMap<i64>>,
}

impl Runtime {
    /// The global variables.
    pub closed spec fn globals(&self) -> Bindings {
        self.global_memory@
    }

    /// The frames of local variables, the current one last.
    pub closed spec fn frames(&self) -> Seq<Bindings> {
        Seq::new(self.stack.len() as nat, |i: int| self.stack[i]@)
    }

    /// Storage with no variable and no frame.
    pub fn new() -> (runtime: Runtime)
        ensures
            runtime.globals() == Map::<Seq<char>, i64>::empty(),
            runtime.frames() == Seq::<Bindings>::empty(),
    {
        let runtime = Runtime { global_memory: StringHashMap::new(), stack: Vec::new() };
        assert(runtime.frames() =~= Seq::<Bindings>::empty());
        runtime
    }

    /// Pushes a new, empty frame.
    pub fn enter_scope(&mut self)
        ensures
            final(self).globals() == old(self).globals(),
            final(self).frames() == old(self).frames().push(Map::empty()),
    {
        self.stack.push(StringHashMap::new());
        assert(self.frames() =~= old(self).frames().push(Map::empty()));
    }

    /// Drops the current frame; without a frame nothing happens.
    pub fn exit_scope(&mut self)
        ensures
            final(self).globals() == old(self).globals(),
            final(self).frames() == if old(self).frames().len() > 0 {
                old(self).frames().drop_last()
            } else {
                old(self).frames()
            },
    {
        self.stack.pop();
        assert(self.frames() =~= if old(self).frames().len() > 0 {
            old(self).frames().drop_last()
        } else {
            old(self).frames()
        });
    }

    /// Sets the global variable `name` to `value`.
    pub fn set_global(&mut self, name: std::string::String, value: i64)
        ensures
            final(self).globals() == old(self).globals().insert(name@, value),
            final(self).frames() == old(self).frames(),
    {
        self.global_memory.insert(name, value);
        assert(self.frames() =~= old(self).frames());
    }

    /// The value of the global variable `name`, if it is set.
    pub fn get_global(&self, name: &str) -> (value: Option<&i64>)
        ensures
            value == if self.globals().contains_key(name@) {
                Some(&self.globals()[name@])
            } else {
                None
            },
    {
        self.global_memory.get(name)
    }

    /// Sets the variable `name` of the current frame to `value`; without a
    /// frame nothing happens.
    pub fn set_local(&mut self, name: std::string::String, value: i64)
        ensures
            final(self).globals() == old(self).globals(),
            final(self).frames() == if old(self).frames().len() > 0 {
                old(self).frames().update(
                    old(self).frames().len() - 1,
                    old(self).frames().last().insert(name@, value),
                )
            } else {
                old(self).frames()
            },
    {
        let depth = self.stack.len();
        if depth > 0 {
            self.stack[depth - 1].insert(name, value);
            assert(self.frames() =~= old(self).frames().update(
                old(self).frames().len() - 1,
                old(self).frames().last().insert(name@, value),
            ));
        } else {
            assert(self.frames() =~= old(self).frames());
        }
    }

    /// The value of the variable `name` in the current frame, if there is a
    /// frame and the variable is set in it. Frames below the current one
    /// and the global variables are not consulted.
    pub fn get_local(&self, name: &str) -> (value: Option<&i64>)
        ensures
            value == if self.frames().len() > 0 && self.frames().last().contains_key(name@) {
                Some(&self.frames().last()[name@])
            } else {
                None
            },
    {
        let depth = self.stack.len();
        if depth > 0 {
            self.stack[depth - 1].get(name)
        } else {
            None
        }
    }
}

} // verus!
