//! Positional macro templates: a body whose `$0`, `$1`, ... are replaced by
//! the macro's arguments.
use vstd::prelude::*;
use crate::assembler::syntax::views;
use crate::text::{decimal, decimal_string, push_char, push_str, replace_all, replace_str};

verus! {

/// `line` after the first `n` arguments were substituted, in order: each
/// `$k` is replaced by the `k`-th argument.
pub open spec fn substitute_upto(line: Seq<char>, args: Seq<Seq<char>>, n: nat) -> Seq<char>
    decreases n,
{
    if n == 0 {
        line
    } else {
        replace_all(substitute_upto(line, args, (n - 1) as nat), seq!['$'] + decimal((n - 1) as nat), args[n - 1])
    }
}

/// A macro whose body refers to its arguments by position.
pub struct Macro {
    /// Name of the macro.
    pub name: String,
    /// List of arguments.
    pub args: Vec<String>,
    /// List of instructions.
    pub instructions: Vec<String>,
    /// Length of the macro.
    pub length: usize,
}

impl Macro {
    /// A macro with the given name, arguments and body, of length 0.
    pub fn new(name: String, args: Vec<String>, instructions: Vec<String>) -> (m: Self)
        ensures
            m.name@ == name@,
            views(m.args@) == views(args@),
            views(m.instructions@) == views(instructions@),
            m.length == 0,
    {
        Self { name, args, instructions, length: 0 }
    }

    /// The body with each `$k` replaced by the `k`-th argument, for every
    /// argument in order.
    pub fn substitute(&self) -> (lines: Vec<String>)
        ensures
            views(lines@) == Seq::new(
                self.instructions@.len(),
                |i: int| substitute_upto(views(self.instructions@)[i], views(self.args@), self.args@.len()),
            ),
    {
        let ghost target = Seq::new(
            self.instructions@.len(),
            |i: int| substitute_upto(views(self.instructions@)[i], views(self.args@), self.args@.len()),
        );
        let mut out: Vec<String> = Vec::new();
        let mut i: usize = 0;
        while i < self.instructions.len()
            invariant
                i <= self.instructions@.len(),
                target == Seq::new(
                    self.instructions@.len(),
                    |i: int| substitute_upto(views(self.instructions@)[i], views(self.args@), self.args@.len()),
                ),
                views(out@) == target.take(i as int),
            decreases self.instructions@.len() - i,
        {
            let mut instruction = self.instructions[i].clone();
            let mut k: usize = 0;
            while k < self.args.len()
                invariant
                    k <= self.args@.len(),
                    i < self.instructions@.len(),
                    instruction@ == substitute_upto(views(self.instructions@)[i as int], views(self.args@), k as nat),
                decreases self.args@.len() - k,
            {
                let mut pattern = String::new();
                push_char(&mut pattern, '$');
                push_str(&mut pattern, decimal_string(k as u64).as_str());
                instruction = replace_str(instruction.as_str(), pattern.as_str(), self.args[k].as_str());
                k = k + 1;
            }
            let ghost before = views(out@);
            out.push(instruction);
            assert(views(out@) =~= before.push(instruction@));
            i = i + 1;
            assert(views(out@) =~= target.take(i as int));
        }
        assert(target.take(i as int) =~= target);
        out
    }
}

} // verus!
