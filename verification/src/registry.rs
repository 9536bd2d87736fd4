//! The Command Registry: the closed set of command names a dialog may
//! invoke, and the record of the invocations a call to the runner
//! produced.  The host registers every handler name before any dialog
//! runs, and performs the recorded calls after each event.

use vstd::prelude::*;

verus! {

/// One recorded command invocation: the handler name and its arguments,
/// in order.
#[derive(Clone, Debug, PartialEq)]
pub struct CommandCall {
    pub func_name: String,
    pub args: Vec<String>,
}

/// The view of one recorded invocation.
pub struct CommandCallV {
    pub func_name: Seq<char>,
    pub args: Seq<Seq<char>>,
}

impl View for CommandCall {
    type V = CommandCallV;

    open spec fn view(&self) -> CommandCallV {
        CommandCallV {
            func_name: self.func_name@,
            args: self.args@.map_values(|a: String| a@),
        }
    }
}

/// The registry: which command names are known, and which invocations have
/// been recorded so far.
pub struct CommandRegistry {
    names: Vec<String>,
    invoked: Vec<CommandCall>,
}

impl CommandRegistry {
    /// The set of registered command names.
    pub closed spec fn known(&self) -> Set<Seq<char>> {
        Set::new(
            |t: Seq<char>|
                exists|i: int| 0 <= i < self.names@.len() && (#[trigger] self.names@[i])@ == t,
        )
    }

    /// The invocations recorded so far, in order.
    pub closed spec fn calls(&self) -> Seq<CommandCallV> {
        self.invoked@.map_values(|c: CommandCall| c@)
    }

    /// An empty registry: no names, no recorded calls.
    pub fn new() -> (r: CommandRegistry)
        ensures
            r.known() == Set::<Seq<char>>::empty(),
            r.calls() == Seq::<CommandCallV>::empty(),
    {
        let r = CommandRegistry { names: Vec::new(), invoked: Vec::new() };
        proof {
            assert(r.known() =~= Set::<Seq<char>>::empty());
            assert(r.calls() =~= Seq::<CommandCallV>::empty());
        }
        r
    }

    /// Registers a handler name.
    pub fn register(&mut self, name: String)
        ensures
            final(self).known() == old(self).known().insert(name@),
            final(self).calls() == old(self).calls(),
    {
        let ghost ov = self.names@;
        self.names.push(name);
        proof {
            let ghost nv = self.names@;
            let newk = self.known();
            let oldk = old(self).known();
            assert forall|t: Seq<char>| newk.contains(t) implies oldk.insert(name@).contains(
                t,
            ) by {
                let i = choose|i: int| 0 <= i < nv.len() && (#[trigger] nv[i])@ == t;
                if i < ov.len() {
                    assert(ov[i]@ == t);
                    assert(oldk.contains(t));
                }
            }
            assert forall|t: Seq<char>| oldk.insert(name@).contains(t) implies newk.contains(
                t,
            ) by {
                if t == nv[ov.len() as int]@ {
                    assert(nv[ov.len() as int]@ == t);
                } else {
                    let i = choose|i: int| 0 <= i < ov.len() && (#[trigger] ov[i])@ == t;
                    assert(nv[i]@ == t);
                }
            }
            assert(newk =~= oldk.insert(name@));
            assert(self.calls() =~= old(self).calls());
        }
    }

    /// Whether `name` is registered.
    pub fn has(&self, name: &String) -> (r: bool)
        ensures
            r == self.known().contains(name@),
    {
        let mut i: usize = 0;
        while i < self.names.len()
            invariant
                i <= self.names@.len(),
                forall|j: int| 0 <= j < i ==> (#[trigger] self.names@[j])@ != name@,
            decreases self.names@.len() - i,
        {
            if self.names[i].eq(name) {
                return true;
            }
            i += 1;
        }
        false
    }

    /// Records an invocation of `name` with `args` if `name` is
    /// registered; an unregistered name records nothing.
    pub fn invoke(&mut self, name: &String, args: &Vec<String>) -> (r: bool)
        ensures
            final(self).known() == old(self).known(),
            r == old(self).known().contains(name@),
            r ==> final(self).calls() == old(self).calls().push(
                CommandCallV { func_name: name@, args: args@.map_values(|a: String| a@) },
            ),
            !r ==> *final(self) == *old(self),
    {
        if !self.has(name) {
            return false;
        }
        let mut copied: Vec<String> = Vec::new();
        let mut i: usize = 0;
        while i < args.len()
            invariant
                i <= args@.len(),
                copied@.len() == i,
                forall|j: int| 0 <= j < i ==> (#[trigger] copied@[j])@ == args@[j]@,
            decreases args@.len() - i,
        {
            copied.push(args[i].clone());
            i += 1;
        }
        let call = CommandCall { func_name: name.clone(), args: copied };
        let ghost cv = self.calls();
        self.invoked.push(call);
        proof {
            assert(call@.args =~= args@.map_values(|a: String| a@));
            assert(final(self).calls() =~= cv.push(call@));
            assert(final(self).known() =~= old(self).known());
        }
        true
    }

    /// Hands the recorded invocations to the caller and clears the record.
    pub fn take_calls(&mut self) -> (r: Vec<CommandCall>)
        ensures
            r@.map_values(|c: CommandCall| c@) == old(self).calls(),
            final(self).calls() == Seq::<CommandCallV>::empty(),
            final(self).known() == old(self).known(),
    {
        let mut out: Vec<CommandCall> = Vec::new();
        core::mem::swap(&mut out, &mut self.invoked);
        proof {
            assert(final(self).calls() =~= Seq::<CommandCallV>::empty());
            assert(final(self).known() =~= old(self).known());
        }
        out
    }

    /// The recorded invocations, without clearing them.
    pub fn call_log(&self) -> (r: &Vec<CommandCall>)
        ensures
            r@.map_values(|c: CommandCall| c@) == self.calls(),
    {
        &self.invoked
    }
}

} // verus!
