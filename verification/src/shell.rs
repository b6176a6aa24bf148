//! The shell: the registry of commands, the shared state and the prompt, and
//! the dispatch of one input line.

use vstd::prelude::*;
use vstd::string::*;
use crate::command::Command;
use crate::command::Handler;
use crate::error::ExecError;
use crate::error::settle;
use crate::error::step_of;
use crate::error::Reply;
use crate::error::Step;
use crate::text::compare_names;
use crate::text::is_space;
use crate::text::lemma_blank_has_no_words;
use crate::text::lemma_first_word;
use crate::text::lemma_precedes_strict;
use crate::text::lemma_precedes_transitive;
use crate::text::precedes;
use crate::text::split_words;
use crate::text::views;
use crate::text::words;
use crate::text::NameOrder;

verus! {

/// The commands stand in the strict order of their names, so that no name
/// occurs twice.
pub open spec fn listed_in_order<H>(e: Seq<Command<H>>) -> bool {
    forall|i: int, j: int|
        0 <= i < j < e.len() ==> precedes(#[trigger] e[i].name_text(), #[trigger] e[j].name_text())
}

/// The command of the given name, if there is one.
pub open spec fn found<H>(e: Seq<Command<H>>, name: Seq<char>) -> Option<Command<H>> {
    if exists|i: int| 0 <= i < e.len() && #[trigger] e[i].name_text() == name {
        Some(e[choose|i: int| 0 <= i < e.len() && #[trigger] e[i].name_text() == name])
    } else {
        None
    }
}

/// The listing lines of the commands, one for one.
pub open spec fn help_texts<H>(e: Seq<Command<H>>) -> Seq<Seq<char>> {
    Seq::new(e.len(), |i: int| e[i].help_text())
}

/// The views of a list of strings, one for one.
pub open spec fn texts(v: Seq<String>) -> Seq<Seq<char>> {
    Seq::new(v.len(), |i: int| v[i]@)
}

/// In an ordered list a command is found under its own name.
pub proof fn lemma_found_at<H>(e: Seq<Command<H>>, i: int)
    requires
        listed_in_order(e),
        0 <= i < e.len(),
    ensures
        found(e, e[i].name_text()) == Some(e[i]),
{
    let name = e[i].name_text();
    let j = choose|j: int| 0 <= j < e.len() && #[trigger] e[j].name_text() == name;
    if j < i {
        lemma_precedes_strict(e[j].name_text(), e[i].name_text());
    } else if i < j {
        lemma_precedes_strict(e[i].name_text(), e[j].name_text());
    }
}

/// Putting `cmd` at its place `p` in an ordered list, over the command of the
/// same name (`d == 0`) or between its neighbours (`d == 1`), keeps the list
/// ordered and changes what is found under that name only.
proof fn lemma_placed<H>(e: Seq<Command<H>>, cmd: Command<H>, p: int, d: int, post: Seq<Command<H>>)
    requires
        listed_in_order(e),
        0 <= p <= e.len(),
        d == 0 || d == 1,
        d == 0 ==> p < e.len() && e[p].name_text() == cmd.name_text(),
        d == 1 && p < e.len() ==> precedes(cmd.name_text(), e[p].name_text()),
        forall|k: int| 0 <= k < p ==> precedes(#[trigger] e[k].name_text(), cmd.name_text()),
        post.len() == e.len() + d,
        forall|k: int| 0 <= k < p ==> #[trigger] post[k] == e[k],
        post[p] == cmd,
        forall|k: int| p < k < post.len() ==> #[trigger] post[k] == e[k - d],
    ensures
        listed_in_order(post),
        forall|n: Seq<char>|
            #[trigger] found(post, n) == if n == cmd.name_text() {
                Some(cmd)
            } else {
                found(e, n)
            },
        found(e, cmd.name_text()) is Some <==> d == 0,
{
    let name = cmd.name_text();
    assert forall|k: int| p + 1 - d <= k < e.len() implies precedes(
        name,
        #[trigger] e[k].name_text(),
    ) by {
        if k > p && d == 1 {
            lemma_precedes_transitive(name, e[p].name_text(), e[k].name_text());
        }
    }
    assert forall|i: int, j: int| 0 <= i < j < post.len() implies precedes(
        #[trigger] post[i].name_text(),
        #[trigger] post[j].name_text(),
    ) by {
        if i < p && p < j {
            lemma_precedes_transitive(e[i].name_text(), name, e[j - d].name_text());
        }
    }
    lemma_found_at(post, p);
    assert forall|n: Seq<char>|
        #[trigger] found(post, n) == if n == name {
            Some(cmd)
        } else {
            found(e, n)
        } by {
        if n != name {
            if exists|i: int| 0 <= i < e.len() && #[trigger] e[i].name_text() == n {
                let i = choose|i: int| 0 <= i < e.len() && #[trigger] e[i].name_text() == n;
                let t = if i < p {
                    i
                } else {
                    i + d
                };
                assert(post[t] == e[i]);
                lemma_found_at(post, t);
                lemma_found_at(e, i);
            } else {
                if exists|t: int| 0 <= t < post.len() && #[trigger] post[t].name_text() == n {
                    let t = choose|t: int| 0 <= t < post.len() && #[trigger] post[t].name_text() == n;
                    if t < p {
                        assert(e[t].name_text() == n);
                    } else {
                        assert(e[t - d].name_text() == n);
                    }
                }
            }
        }
    }
    if d == 0 {
        lemma_found_at(e, p);
    } else {
        if exists|i: int| 0 <= i < e.len() && #[trigger] e[i].name_text() == name {
            let i = choose|i: int| 0 <= i < e.len() && #[trigger] e[i].name_text() == name;
            if i < p {
                lemma_precedes_strict(e[i].name_text(), name);
            } else {
                lemma_precedes_strict(name, e[i].name_text());
            }
        }
    }
}

/// A shell over a state of type `T` whose commands have handlers of type `H`.
pub struct Shell<T, H> {
    commands: Vec<Command<H>>,
    value: T,
    prompt: String,
}

impl<T, H: Handler<T>> Shell<T, H> {
    /// The registered commands in the order of the listing.
    pub closed spec fn entries(&self) -> Seq<Command<H>> {
        self.commands@
    }

    /// The shared state.
    pub closed spec fn state(&self) -> T {
        self.value
    }

    /// The prompt.
    pub closed spec fn prompt_text(&self) -> Seq<char> {
        self.prompt@
    }

    /// The registry is well formed: the commands are listed in the strict
    /// order of their names.
    pub open spec fn wf(&self) -> bool {
        listed_in_order(self.entries())
    }

    /// The command registered under `name`, if there is one.
    pub open spec fn lookup(&self, name: Seq<char>) -> Option<Command<H>> {
        found(self.entries(), name)
    }

    /// The lines of the listing.
    pub open spec fn listing(&self) -> Seq<Seq<char>> {
        help_texts(self.entries())
    }

    /// `post` is `pre` after `cmd` was registered: `cmd` is what its name
    /// finds, in place of any command that the name found before; every other
    /// name finds what it found; state and prompt are as they were.
    pub open spec fn registered(pre: Self, cmd: Command<H>, post: Self) -> bool {
        &&& post.state() == pre.state()
        &&& post.prompt_text() == pre.prompt_text()
        &&& forall|n: Seq<char>|
            #[trigger] post.lookup(n) == if n == cmd.name_text() {
                Some(cmd)
            } else {
                pre.lookup(n)
            }
        &&& post.entries().len() == if pre.lookup(cmd.name_text()) is Some {
            pre.entries().len()
        } else {
            pre.entries().len() + 1
        }
    }

    /// `post` and `reply` are what dispatching `line` on `pre` gives.
    ///
    /// A line without words does nothing. The first word selects: `help`
    /// gives the listing, `quit` gives `Quit`, both whatever is registered
    /// under these names; any other word is looked up, and the command found
    /// is run on the words that follow.
    pub open spec fn dispatched(pre: Self, line: Seq<char>, post: Self, reply: Reply) -> bool {
        let w = words(line);
        &&& post.entries() == pre.entries()
        &&& post.prompt_text() == pre.prompt_text()
        &&& if w.len() == 0 {
            &&& post.state() == pre.state()
            &&& reply matches Ok(out) && out@.len() == 0
        } else if w[0] == "help"@ {
            &&& post.state() == pre.state()
            &&& reply matches Ok(out) && texts(out@) == pre.listing()
        } else if w[0] == "quit"@ {
            &&& post.state() == pre.state()
            &&& reply == Err::<Vec<String>, ExecError>(ExecError::Quit)
        } else {
            match pre.lookup(w[0]) {
                None => {
                    &&& post.state() == pre.state()
                    &&& reply matches Err(ExecError::UnknownCommand(name)) && name@ == w[0]
                },
                Some(c) => if w.len() - 1 < c.min_args() {
                    &&& post.state() == pre.state()
                    &&& reply == Err::<Vec<String>, ExecError>(ExecError::MissingArgs)
                } else {
                    &&& c.handler().allows(pre.state(), w.skip(1), post.state())
                    &&& reply matches Ok(out) && out@.len() == 0
                },
            }
        }
    }

    /// A shell around `value`, with no command and the prompt `>`.
    pub fn new(value: T) -> (s: Self)
        ensures
            s.wf(),
            s.entries().len() == 0,
            s.state() == value,
            s.prompt_text() == ">"@,
    {
        Shell { commands: Vec::new(), value, prompt: String::from_str(">") }
    }

    /// Replaces the prompt. Any text is taken, the empty one too.
    pub fn set_prompt(&mut self, prompt: String)
        ensures
            final(self).prompt_text() == prompt@,
            final(self).entries() == old(self).entries(),
            final(self).state() == old(self).state(),
    {
        self.prompt = prompt;
    }

    /// The prompt.
    pub fn prompt(&self) -> (r: &str)
        ensures
            r@ == self.prompt_text(),
    {
        self.prompt.as_str()
    }

    /// The shared state.
    pub fn value(&self) -> (r: &T)
        ensures
            *r == self.state(),
    {
        &self.value
    }

    /// The number of registered commands.
    pub fn len(&self) -> (n: usize)
        ensures
            n == self.entries().len(),
    {
        self.commands.len()
    }

    /// Registers `cmd` under its name. A command registered under that name
    /// before is replaced.
    pub fn register_command(&mut self, cmd: Command<H>)
        requires
            old(self).wf(),
        ensures
            final(self).wf(),
            Self::registered(*old(self), cmd, *final(self)),
    {
        let n: usize = self.commands.len();
        let mut p: usize = 0;
        let mut same: bool = false;
        let mut searching: bool = true;
        while searching && p < n
            invariant
                n == self.commands@.len(),
                self.commands@ == old(self).commands@,
                p <= n,
                forall|k: int|
                    0 <= k < p ==> precedes(
                        #[trigger] self.commands@[k].name_text(),
                        cmd.name_text(),
                    ),
                !searching ==> p < n,
                !searching && same ==> self.commands@[p as int].name_text() == cmd.name_text(),
                !searching && !same ==> precedes(
                    cmd.name_text(),
                    self.commands@[p as int].name_text(),
                ),
                searching ==> !same,
            decreases n - p + if searching { 1int } else { 0int },
        {
            match compare_names(self.commands[p].name(), cmd.name()) {
                NameOrder::Before => {
                    p += 1;
                },
                NameOrder::Same => {
                    same = true;
                    searching = false;
                },
                NameOrder::After => {
                    searching = false;
                },
            }
        }
        if same {
            self.commands.remove(p);
        }
        let ghost placed = cmd;
        self.commands.insert(p, cmd);
        proof {
            let d: int = if same { 0 } else { 1 };
            lemma_placed(old(self).commands@, placed, p as int, d, self.commands@);
        }
    }

    /// Makes a command of the given parts and registers it.
    pub fn new_command(&mut self, name: &str, description: &str, nargs: usize, func: H)
        requires
            old(self).wf(),
        ensures
            final(self).wf(),
            exists|cmd: Command<H>|
                {
                    &&& cmd.name_text() == name@
                    &&& cmd.description_text() == description@
                    &&& cmd.min_args() == nargs
                    &&& cmd.handler() == func
                    &&& #[trigger] Self::registered(*old(self), cmd, *final(self))
                },
    {
        let cmd = Command::new(String::from_str(name), String::from_str(description), nargs, func);
        let ghost made = cmd;
        self.register_command(cmd);
        assert(Self::registered(*old(self), made, *self));
    }

    /// The listing: one line for each registered command, in the order of
    /// the names. It always succeeds.
    pub fn help(&self) -> (r: Reply)
        ensures
            r matches Ok(out) && texts(out@) == self.listing(),
    {
        let mut out: Vec<String> = Vec::new();
        let n: usize = self.commands.len();
        let mut i: usize = 0;
        while i < n
            invariant
                n == self.commands@.len(),
                i <= n,
                out@.len() == i,
                forall|k: int| 0 <= k < i ==> (#[trigger] out@[k])@ == self.commands@[k].help_text(),
            decreases n - i,
        {
            out.push(self.commands[i].help());
            i += 1;
        }
        assert(texts(out@) =~= self.listing());
        Ok(out)
    }

    /// The index of the command registered under `name`.
    fn position(&self, name: &str) -> (r: Option<usize>)
        ensures
            match r {
                Some(i) => i < self.entries().len() && self.entries()[i as int].name_text()
                    == name@,
                None => forall|k: int|
                    0 <= k < self.entries().len() ==> #[trigger] self.entries()[k].name_text()
                        != name@,
            },
    {
        let n: usize = self.commands.len();
        let mut i: usize = 0;
        while i < n
            invariant
                n == self.commands@.len(),
                i <= n,
                forall|k: int| 0 <= k < i ==> #[trigger] self.commands@[k].name_text() != name@,
            decreases n - i,
        {
            if compare_names(self.commands[i].name(), name) == NameOrder::Same {
                return Some(i);
            }
            i += 1;
        }
        None
    }

    /// Dispatches one input line.
    pub fn run(&mut self, line: &str) -> (r: Reply)
        requires
            old(self).wf(),
        ensures
            final(self).wf(),
            Self::dispatched(*old(self), line@, *final(self), r),
    {
        let mut w: Vec<&str> = split_words(line);
        if w.len() == 0 {
            return Ok(Vec::new());
        }
        let ghost all = views(w@);
        let first: &str = w.remove(0);
        assert(first@ == all[0]);
        assert(views(w@) =~= all.skip(1));
        if compare_names(first, "help") == NameOrder::Same {
            return self.help();
        }
        if compare_names(first, "quit") == NameOrder::Same {
            return Err(ExecError::Quit);
        }
        match self.position(first) {
            None => Err(ExecError::UnknownCommand(String::from_str(first))),
            Some(i) => {
                proof {
                    lemma_found_at(self.entries(), i as int);
                }
                match self.commands[i].run(&mut self.value, w.as_slice()) {
                    Ok(()) => Ok(Vec::new()),
                    Err(e) => Err(e),
                }
            },
        }
    }

    /// One turn of the read loop: dispatches `line` and decides what the
    /// loop does with the reply. `quit` stops the loop and nothing is
    /// written; any other error is written as its message, and the lines of
    /// a success as they are, before the loop reads on.
    pub fn step(&mut self, line: &str) -> (next: Step)
        requires
            old(self).wf(),
        ensures
            final(self).wf(),
            exists|reply: Reply|
                #[trigger] Self::dispatched(*old(self), line@, *final(self), reply) && step_of(
                    reply,
                    next,
                ),
    {
        let reply = self.run(line);
        let ghost given = reply;
        let next = settle(reply);
        assert(Self::dispatched(*old(self), line@, *self, given) && step_of(given, next));
        next
    }
}

/// The listing is sorted and complete: it has one line for each registered
/// command, the lines stand in the strict order of the commands' names, no
/// name has two lines, and a name finds a command exactly if it has a line.
pub proof fn lemma_listing_sorted_and_complete<T, H: Handler<T>>(s: Shell<T, H>)
    requires
        s.wf(),
    ensures
        s.listing().len() == s.entries().len(),
        forall|i: int|
            0 <= i < s.entries().len() ==> #[trigger] s.listing()[i] == s.entries()[i].help_text(),
        forall|i: int, j: int|
            0 <= i < j < s.entries().len() ==> precedes(
                #[trigger] s.entries()[i].name_text(),
                #[trigger] s.entries()[j].name_text(),
            ),
        forall|i: int, j: int|
            0 <= i < s.entries().len() && 0 <= j < s.entries().len() && #[trigger] s.entries()[i].name_text()
                == #[trigger] s.entries()[j].name_text() ==> i == j,
        forall|i: int|
            0 <= i < s.entries().len() ==> s.lookup(#[trigger] s.entries()[i].name_text()) == Some(
                s.entries()[i],
            ),
        forall|n: Seq<char>|
            #[trigger] s.lookup(n) is Some ==> exists|i: int|
                0 <= i < s.entries().len() && #[trigger] s.entries()[i].name_text() == n,
{
    let e = s.entries();
    assert forall|i: int, j: int|
        0 <= i < e.len() && 0 <= j < e.len() && #[trigger] e[i].name_text()
            == #[trigger] e[j].name_text() implies i == j by {
        if i < j {
            lemma_precedes_strict(e[i].name_text(), e[j].name_text());
        } else if j < i {
            lemma_precedes_strict(e[j].name_text(), e[i].name_text());
        }
    }
    assert forall|i: int| 0 <= i < e.len() implies s.lookup(#[trigger] e[i].name_text()) == Some(
        e[i],
    ) by {
        lemma_found_at(e, i);
    }
}

/// Of two commands registered under one name, the second is the one that the
/// name finds afterwards; the first is gone, the registry is no larger than
/// after the first, and every other name finds what it found at the start.
pub proof fn lemma_last_registration_wins<T, H: Handler<T>>(
    start: Shell<T, H>,
    first: Command<H>,
    middle: Shell<T, H>,
    second: Command<H>,
    end: Shell<T, H>,
)
    requires
        Shell::registered(start, first, middle),
        Shell::registered(middle, second, end),
        first.name_text() == second.name_text(),
    ensures
        end.lookup(second.name_text()) == Some(second),
        end.entries().len() == middle.entries().len(),
        forall|n: Seq<char>| n != second.name_text() ==> #[trigger] end.lookup(n) == start.lookup(n),
{
    assert(middle.lookup(first.name_text()) == Some(first));
    assert(end.lookup(second.name_text()) == Some(second));
    assert forall|n: Seq<char>| n != second.name_text() implies #[trigger] end.lookup(n)
        == start.lookup(n) by {
        assert(end.lookup(n) == middle.lookup(n));
        assert(middle.lookup(n) == start.lookup(n));
    }
}

/// A line that is empty or holds nothing but whitespace is dispatched with
/// success, writes nothing and leaves the shell as it was.
pub proof fn lemma_blank_line_is_inert<T, H: Handler<T>>(
    pre: Shell<T, H>,
    line: Seq<char>,
    post: Shell<T, H>,
    reply: Reply,
)
    requires
        Shell::dispatched(pre, line, post, reply),
        forall|k: int| 0 <= k < line.len() ==> is_space(#[trigger] line[k]),
    ensures
        reply matches Ok(out) && out@.len() == 0,
        post.state() == pre.state(),
        post.entries() == pre.entries(),
        post.prompt_text() == pre.prompt_text(),
{
    lemma_blank_has_no_words(line, 0);
}

/// A line whose first word is `quit` gives `Quit` and changes nothing,
/// whatever follows the word and whatever is registered, a command named
/// `quit` included.
pub proof fn lemma_quit_always_quits<T, H: Handler<T>>(
    pre: Shell<T, H>,
    line: Seq<char>,
    post: Shell<T, H>,
    reply: Reply,
)
    requires
        Shell::dispatched(pre, line, post, reply),
        words(line).len() > 0,
        words(line)[0] == "quit"@,
    ensures
        reply == Err::<Vec<String>, ExecError>(ExecError::Quit),
        post.state() == pre.state(),
        post.entries() == pre.entries(),
{
    reveal_strlit("quit");
    reveal_strlit("help");
    assert("quit"@[0] != "help"@[0]);
}

/// A line that holds `quit` at index `i`, after nothing but whitespace and
/// before the end of the line or a whitespace character, gives `Quit` and
/// changes nothing, whatever else follows.
pub proof fn lemma_quit_line_quits<T, H: Handler<T>>(
    pre: Shell<T, H>,
    line: Seq<char>,
    post: Shell<T, H>,
    reply: Reply,
    i: int,
)
    requires
        Shell::dispatched(pre, line, post, reply),
        0 <= i,
        i + 4 <= line.len(),
        forall|k: int| 0 <= k < i ==> is_space(#[trigger] line[k]),
        line.subrange(i, i + 4) == "quit"@,
        i + 4 < line.len() ==> is_space(line[i + 4]),
    ensures
        reply == Err::<Vec<String>, ExecError>(ExecError::Quit),
        post.state() == pre.state(),
        post.entries() == pre.entries(),
{
    reveal_strlit("quit");
    let word = line.subrange(i, i + 4);
    assert forall|k: int| i <= k < i + 4 implies !is_space(#[trigger] line[k]) by {
        assert(line[k] == word[k - i]);
    }
    lemma_first_word(line, i, 4);
    lemma_quit_always_quits(pre, line, post, reply);
}

/// A line whose first word is `help` gives the listing and changes nothing,
/// whatever follows the word and whatever is registered, a command named
/// `help` included.
pub proof fn lemma_help_always_lists<T, H: Handler<T>>(
    pre: Shell<T, H>,
    line: Seq<char>,
    post: Shell<T, H>,
    reply: Reply,
)
    requires
        Shell::dispatched(pre, line, post, reply),
        words(line).len() > 0,
        words(line)[0] == "help"@,
    ensures
        reply matches Ok(out) && texts(out@) == pre.listing(),
        post.state() == pre.state(),
        post.entries() == pre.entries(),
{
}

/// A line whose first word is neither built-in nor registered gives
/// `UnknownCommand` with that word and changes nothing.
pub proof fn lemma_unregistered_word_is_unknown<T, H: Handler<T>>(
    pre: Shell<T, H>,
    line: Seq<char>,
    post: Shell<T, H>,
    reply: Reply,
)
    requires
        Shell::dispatched(pre, line, post, reply),
        words(line).len() > 0,
        words(line)[0] != "help"@,
        words(line)[0] != "quit"@,
        pre.lookup(words(line)[0]) is None,
    ensures
        reply matches Err(ExecError::UnknownCommand(name)) && name@ == words(line)[0],
        post.state() == pre.state(),
        post.entries() == pre.entries(),
{
}

/// A line whose first word finds the command `cmd`: with fewer words after
/// it than `cmd` needs, the reply is `MissingArgs` and the state is as it
/// was, so the handler did not act; otherwise the reply is a success without
/// output, and the state is one that the handler leaves behind when called
/// on the state before with all the words after the first.
pub proof fn lemma_argument_count_decides<T, H: Handler<T>>(
    pre: Shell<T, H>,
    line: Seq<char>,
    post: Shell<T, H>,
    reply: Reply,
    cmd: Command<H>,
)
    requires
        Shell::dispatched(pre, line, post, reply),
        words(line).len() > 0,
        words(line)[0] != "help"@,
        words(line)[0] != "quit"@,
        pre.lookup(words(line)[0]) == Some(cmd),
    ensures
        words(line).len() - 1 < cmd.min_args() ==> reply == Err::<Vec<String>, ExecError>(
            ExecError::MissingArgs,
        ) && post.state() == pre.state(),
        words(line).len() - 1 >= cmd.min_args() ==> (reply matches Ok(out) && out@.len() == 0)
            && cmd.handler().allows(pre.state(), words(line).skip(1), post.state()),
        post.entries() == pre.entries(),
{
}

} // verus!
