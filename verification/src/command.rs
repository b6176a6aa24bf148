//! A command: a name, a description, the least number of arguments, and the
//! handler that acts on the shared state.

use vstd::prelude::*;
use vstd::string::*;
use crate::error::ExecError;
use crate::error::ExecResult;
use crate::text::views;

verus! {

/// What a host implements to give a command its behaviour.
pub trait Handler<T> {
    /// What the handler promises of the state that a call leaves behind,
    /// given the state before it and the arguments. A handler that states
    /// nothing promises nothing.
    open spec fn allows(&self, before: T, args: Seq<Seq<char>>, after: T) -> bool {
        true
    }

    /// Acts on the state. The arguments are the words that followed the
    /// command's name; there may be more of them than the command asks for.
    fn call(&self, state: &mut T, args: &[&str])
        ensures
            self.allows(*old(state), views(args@), *final(state)),
    ;
}

/// A boxed handler of any kind is a handler: it promises and does what the
/// handler in the box does. With it one shell holds handlers of many types.
impl<T> Handler<T> for Box<dyn Handler<T>> {
    open spec fn allows(&self, before: T, args: Seq<Seq<char>>, after: T) -> bool {
        (**self).allows(before, args, after)
    }

    fn call(&self, state: &mut T, args: &[&str]) {
        (**self).call(state, args)
    }
}

/// A named command whose behaviour is a handler of type `H`.
pub struct Command<H> {
    name: String,
    description: String,
    nargs: usize,
    func: H,
}

impl<H> Command<H> {
    /// The name under which the command is registered and called.
    pub closed spec fn name_text(&self) -> Seq<char> {
        self.name@
    }

    /// The description shown in the listing.
    pub closed spec fn description_text(&self) -> Seq<char> {
        self.description@
    }

    /// The least number of arguments with which the handler is called.
    pub closed spec fn min_args(&self) -> nat {
        self.nargs as nat
    }

    /// The handler.
    pub closed spec fn handler(&self) -> H {
        self.func
    }

    /// The command's line in the listing: the name, a space, a colon, a tab,
    /// and the description.
    pub open spec fn help_text(&self) -> Seq<char> {
        self.name_text() + " :\t"@ + self.description_text()
    }

    /// A command of the given parts. Neither the name nor the count is
    /// checked.
    pub fn new(name: String, description: String, nargs: usize, func: H) -> (c: Self)
        ensures
            c.name_text() == name@,
            c.description_text() == description@,
            c.min_args() == nargs,
            c.handler() == func,
    {
        Command { name, description, nargs, func }
    }

    /// The name under which the command is registered and called.
    pub fn name(&self) -> (r: &str)
        ensures
            r@ == self.name_text(),
    {
        self.name.as_str()
    }

    /// The command's line in the listing.
    pub fn help(&self) -> (r: String)
        ensures
            r@ == self.help_text(),
    {
        let mut line = self.name.clone();
        line.append(" :\t");
        line.append(self.description.as_str());
        line
    }

    /// Runs the command on `value`. With fewer arguments than the command
    /// needs, the handler is not called and the state stays as it is;
    /// otherwise the handler is called once, with all the arguments, and the
    /// state is one that it leaves behind.
    pub fn run<T>(&self, value: &mut T, args: &[&str]) -> (r: ExecResult) where H: Handler<T>
        ensures
            args@.len() < self.min_args() ==> r == Err::<(), ExecError>(ExecError::MissingArgs)
                && *final(value) == *old(value),
            args@.len() >= self.min_args() ==> r == Ok::<(), ExecError>(())
                && self.handler().allows(*old(value), views(args@), *final(value)),
    {
        if args.len() < self.nargs {
            return Err(ExecError::MissingArgs);
        }
        self.func.call(value, args);
        Ok(())
    }
}

} // verus!
