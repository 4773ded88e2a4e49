//! Macros of the assembler: named bodies of lines whose arguments are
//! substituted where the body names them, as `name` or as `$name`.
use vstd::prelude::*;
use crate::assembler::syntax::{views, is_word_char, is_word_char_exec};
use crate::text::{chars_of, push_char, push_str, str_eq};

verus! {

/// The views of a sequence of string slices.
pub open spec fn strs(v: Seq<&str>) -> Seq<Seq<char>> {
    v.map_values(|x: &str| x@)
}

/// A character of a name in a macro body: a letter, a digit, `_`, `$` or
/// `@`. A name is a maximal run of them, so `@char` is not the name `char`.
pub open spec fn is_name_char(c: char) -> bool {
    is_word_char(c) || c == '$' || c == '@'
}

/// The number of arguments that get a value.
pub open spec fn arity(args: Seq<Seq<char>>, values: Seq<Seq<char>>) -> nat {
    if args.len() <= values.len() { args.len() } else { values.len() }
}

/// What the name `w` stands for among the arguments `k` to `n - 1`: the value
/// of the first one that `w` names, as `arg` or as `$arg`, or else `w` itself.
pub open spec fn subst_from(w: Seq<char>, args: Seq<Seq<char>>, values: Seq<Seq<char>>, k: nat, n: nat) -> Seq<char>
    decreases n - k,
{
    if k >= n {
        w
    } else if w == args[k as int] || w == seq!['$'] + args[k as int] {
        values[k as int]
    } else {
        subst_from(w, args, values, k + 1, n)
    }
}

/// What a name of the body stands for after substitution.
pub open spec fn subst_name(w: Seq<char>, args: Seq<Seq<char>>, values: Seq<Seq<char>>) -> Seq<char> {
    if w.len() == 0 {
        w
    } else {
        subst_from(w, args, values, 0, arity(args, values))
    }
}

/// The substituted rest of `line` from position `i`, where `name` holds the
/// characters of the name that runs up to `i`.
pub open spec fn expand_rest(line: Seq<char>, args: Seq<Seq<char>>, values: Seq<Seq<char>>, i: int, name: Seq<char>) -> Seq<char>
    decreases line.len() - i,
{
    if i < 0 || i >= line.len() {
        subst_name(name, args, values)
    } else if is_name_char(line[i]) {
        expand_rest(line, args, values, i + 1, name.push(line[i]))
    } else {
        subst_name(name, args, values) + seq![line[i]] + expand_rest(line, args, values, i + 1, seq![])
    }
}

/// `line` with each name that refers to an argument with a value replaced
/// by that value; every other character stays.
pub open spec fn expand_line(line: Seq<char>, args: Seq<Seq<char>>, values: Seq<Seq<char>>) -> Seq<char> {
    expand_rest(line, args, values, 0, seq![])
}

/// The lines of a macro body with the values substituted for the arguments.
pub open spec fn expand_body(body: Seq<Seq<char>>, args: Seq<Seq<char>>, values: Seq<Seq<char>>) -> Seq<Seq<char>> {
    Seq::new(body.len(), |i: int| expand_line(body[i], args, values))
}

proof fn lemma_rest_without_arguments(line: Seq<char>, args: Seq<Seq<char>>, values: Seq<Seq<char>>, i: int, name: Seq<char>)
    requires
        arity(args, values) == 0,
        0 <= i <= line.len(),
    ensures
        expand_rest(line, args, values, i, name) == name + line.subrange(i, line.len() as int),
    decreases line.len() - i,
{
    if i < line.len() {
        if is_name_char(line[i]) {
            lemma_rest_without_arguments(line, args, values, i + 1, name.push(line[i]));
            assert(name.push(line[i]) + line.subrange(i + 1, line.len() as int) =~= name + line.subrange(i, line.len() as int));
        } else {
            lemma_rest_without_arguments(line, args, values, i + 1, seq![]);
            assert(name + seq![line[i]] + (seq![] + line.subrange(i + 1, line.len() as int))
                =~= name + line.subrange(i, line.len() as int));
        }
    } else {
        assert(name + line.subrange(i, line.len() as int) =~= name);
    }
}

/// A macro used without arguments, or without values, gives its body back
/// unchanged.
pub proof fn lemma_expand_without_arguments(body: Seq<Seq<char>>, args: Seq<Seq<char>>, values: Seq<Seq<char>>)
    requires
        args.len() == 0 || values.len() == 0,
    ensures
        expand_body(body, args, values) == body,
{
    assert forall|i: int| 0 <= i < body.len() implies #[trigger] expand_body(body, args, values)[i] == body[i] by {
        lemma_rest_without_arguments(body[i], args, values, 0, seq![]);
        assert(seq![] + body[i].subrange(0, body[i].len() as int) =~= body[i]);
    }
    assert(expand_body(body, args, values) =~= body);
}

/// `w` is one whole name: not empty, and made of name characters only.
pub open spec fn is_name(w: Seq<char>) -> bool {
    w.len() > 0 && forall|i: int| 0 <= i < w.len() ==> is_name_char(#[trigger] w[i])
}

proof fn lemma_rest_of_name(line: Seq<char>, args: Seq<Seq<char>>, values: Seq<Seq<char>>, i: int, name: Seq<char>)
    requires
        0 <= i <= line.len(),
        forall|j: int| i <= j < line.len() ==> is_name_char(#[trigger] line[j]),
    ensures
        expand_rest(line, args, values, i, name) == subst_name(name + line.subrange(i, line.len() as int), args, values),
    decreases line.len() - i,
{
    if i < line.len() {
        lemma_rest_of_name(line, args, values, i + 1, name.push(line[i]));
        assert(name.push(line[i]) + line.subrange(i + 1, line.len() as int) =~= name + line.subrange(i, line.len() as int));
    } else {
        assert(name + line.subrange(i, line.len() as int) =~= name);
    }
}

proof fn lemma_subst_skips(w: Seq<char>, args: Seq<Seq<char>>, values: Seq<Seq<char>>, j: nat, k: nat, n: nat)
    requires
        j <= k <= n,
        forall|m: int| j <= m < k ==> #[trigger] args[m] != w && seq!['$'] + args[m] != w,
    ensures
        subst_from(w, args, values, j, n) == subst_from(w, args, values, k, n),
    decreases k - j,
{
    if j < k {
        lemma_subst_skips(w, args, values, j + 1, k, n);
    }
}

/// A line that is one argument's name, written bare or after `$`, becomes
/// that argument's value; a name that no argument has stays as it is.
/// (Argument names are names that do not start with `$`, and the first of
/// equal names wins.)
pub proof fn lemma_name_substitution(args: Seq<Seq<char>>, values: Seq<Seq<char>>, k: int, w: Seq<char>)
    requires
        0 <= k < args.len(),
        k < values.len(),
        forall|j: int| 0 <= j < args.len() ==> is_name(#[trigger] args[j]) && args[j][0] != '$',
        forall|j: int| 0 <= j < k ==> #[trigger] args[j] != args[k],
        is_name(w),
    ensures
        expand_line(args[k], args, values) == values[k],
        expand_line(seq!['$'] + args[k], args, values) == values[k],
        (forall|j: int| 0 <= j < args.len() ==> #[trigger] args[j] != w && seq!['$'] + args[j] != w) ==> expand_line(
            w,
            args,
            values,
        ) == w,
{
    let n = arity(args, values);
    let a = args[k];
    let da = seq!['$'] + a;
    assert(is_name(da)) by {
        assert forall|i: int| 0 <= i < da.len() implies is_name_char(#[trigger] da[i]) by {
            if i > 0 {
                assert(da[i] == a[i - 1]);
            }
        }
    }
    lemma_rest_of_name(a, args, values, 0, seq![]);
    assert(Seq::<char>::empty() + a.subrange(0, a.len() as int) =~= a);
    lemma_rest_of_name(da, args, values, 0, seq![]);
    assert(Seq::<char>::empty() + da.subrange(0, da.len() as int) =~= da);
    assert forall|m: int| 0 <= m < k implies #[trigger] args[m] != a && seq!['$'] + args[m] != a by {
        assert((seq!['$'] + args[m])[0] == '$');
    }
    lemma_subst_skips(a, args, values, 0, k as nat, n);
    assert forall|m: int| 0 <= m < k implies #[trigger] args[m] != da && seq!['$'] + args[m] != da by {
        assert(da[0] == '$');
        if seq!['$'] + args[m] == da {
            assert(args[m] =~= da.subrange(1, da.len() as int));
            assert(a =~= da.subrange(1, da.len() as int));
        }
    }
    lemma_subst_skips(da, args, values, 0, k as nat, n);
    lemma_rest_of_name(w, args, values, 0, seq![]);
    assert(Seq::<char>::empty() + w.subrange(0, w.len() as int) =~= w);
    if forall|j: int| 0 <= j < args.len() ==> #[trigger] args[j] != w && seq!['$'] + args[j] != w {
        lemma_subst_skips(w, args, values, 0, n, n);
    }
}

/// Whether a character belongs to a name, computed.
fn is_name_char_exec(c: char) -> (b: bool)
    ensures
        b == is_name_char(c),
{
    is_word_char_exec(c) || c == '$' || c == '@'
}

/// A macro: its argument names and the lines of its body.
#[derive(Debug, Clone)]
pub struct Macro {
    /// List of arguments.
    pub args: Vec<String>,
    /// List of instructions.
    pub instructions: Vec<String>,
}

impl Macro {
    /// A macro with the given argument names and body lines.
    pub fn new(args: Vec<String>, instructions: Vec<String>) -> (m: Self)
        ensures
            views(m.args@) == views(args@),
            views(m.instructions@) == views(instructions@),
    {
        Self { args, instructions }
    }

    /// Appends what the name `name` stands for to `out`.
    fn push_name(&self, out: &mut String, name: &str, dollars: &Vec<String>, values: &[&str], n: usize)
        requires
            n == arity(views(self.args@), strs(values@)),
            dollars@.len() == self.args@.len(),
            forall|k: int| 0 <= k < dollars@.len() ==> #[trigger] dollars@[k]@ == seq!['$'] + self.args@[k]@,
        ensures
            final(out)@ == old(out)@ + subst_name(name@, views(self.args@), strs(values@)),
    {
        let ghost args = views(self.args@);
        let ghost vals = strs(values@);
        if name.unicode_len() == 0 {
            assert(old(out)@ + name@ =~= old(out)@);
            return;
        }
        let mut k: usize = 0;
        while k < n
            invariant
                k <= n,
                n == arity(args, vals),
                args == views(self.args@),
                vals == strs(values@),
                n <= self.args@.len(),
                n <= values@.len(),
                dollars@.len() == self.args@.len(),
                forall|j: int| 0 <= j < dollars@.len() ==> #[trigger] dollars@[j]@ == seq!['$'] + self.args@[j]@,
                *out == *old(out),
                name@.len() > 0,
                subst_from(name@, args, vals, k as nat, n as nat) == subst_from(name@, args, vals, 0, n as nat),
            decreases n - k,
        {
            if str_eq(name, self.args[k].as_str()) || str_eq(name, dollars[k].as_str()) {
                assert(args[k as int] == self.args@[k as int]@);
                assert(dollars@[k as int]@ == seq!['$'] + self.args@[k as int]@);
                assert(vals[k as int] == values@[k as int]@);
                push_str(out, values[k]);
                return;
            }
            assert(args[k as int] == self.args@[k as int]@);
            k = k + 1;
        }
        push_str(out, name);
    }

    /// The body with `values` substituted for the arguments: in each line,
    /// a name equal to an argument, or to `$` and an argument, becomes that
    /// argument's value. Arguments without a value, and values without an
    /// argument, are left out.
    pub fn expand(&self, values: &[&str]) -> (lines: Vec<String>)
        ensures
            views(lines@) == expand_body(views(self.instructions@), views(self.args@), strs(values@)),
    {
        let ghost args = views(self.args@);
        let ghost vals = strs(values@);
        let ghost body = views(self.instructions@);
        let n_args = self.args.len();
        let n_values = values.len();
        let n = if n_args <= n_values { n_args } else { n_values };
        let mut dollars: Vec<String> = Vec::new();
        let mut d: usize = 0;
        while d < n_args
            invariant
                d <= n_args,
                n_args == self.args@.len(),
                dollars@.len() == d,
                forall|k: int| 0 <= k < d ==> #[trigger] dollars@[k]@ == seq!['$'] + self.args@[k]@,
            decreases n_args - d,
        {
            let mut p = String::new();
            push_char(&mut p, '$');
            push_str(&mut p, self.args[d].as_str());
            dollars.push(p);
            d = d + 1;
        }
        let mut instructions: Vec<String> = Vec::new();
        let mut i: usize = 0;
        while i < self.instructions.len()
            invariant
                i <= self.instructions@.len(),
                args == views(self.args@),
                vals == strs(values@),
                body == views(self.instructions@),
                n == arity(args, vals),
                dollars@.len() == self.args@.len(),
                forall|k: int| 0 <= k < dollars@.len() ==> #[trigger] dollars@[k]@ == seq!['$'] + self.args@[k]@,
                views(instructions@) == expand_body(body, args, vals).take(i as int),
            decreases self.instructions@.len() - i,
        {
            let line = chars_of(self.instructions[i].as_str());
            assert(line@ == body[i as int]);
            let mut out = String::new();
            let mut name = String::new();
            let mut j: usize = 0;
            while j < line.len()
                invariant
                    j <= line@.len(),
                    line@ == body[i as int],
                    i < self.instructions@.len(),
                    args == views(self.args@),
                    vals == strs(values@),
                    body == views(self.instructions@),
                    n == arity(args, vals),
                    dollars@.len() == self.args@.len(),
                    forall|k: int| 0 <= k < dollars@.len() ==> #[trigger] dollars@[k]@ == seq!['$'] + self.args@[k]@,
                    out@ + expand_rest(line@, args, vals, j as int, name@) == expand_line(line@, args, vals),
                decreases line@.len() - j,
            {
                let c = line[j];
                if is_name_char_exec(c) {
                    push_char(&mut name, c);
                } else {
                    let ghost before = out@;
                    let ghost rest = expand_rest(line@, args, vals, j + 1, seq![]);
                    self.push_name(&mut out, name.as_str(), &dollars, values, n);
                    push_char(&mut out, c);
                    assert(before + (subst_name(name@, args, vals) + seq![c] + rest) =~= out@ + rest);
                    name = String::new();
                    assert(name@ =~= Seq::<char>::empty());
                }
                j = j + 1;
            }
            let ghost before = out@;
            self.push_name(&mut out, name.as_str(), &dollars, values, n);
            let ghost prev = views(instructions@);
            instructions.push(out);
            assert(views(instructions@) =~= prev.push(expand_line(body[i as int], args, vals)));
            i = i + 1;
            assert(views(instructions@) =~= expand_body(body, args, vals).take(i as int));
        }
        assert(expand_body(body, args, vals).take(i as int) =~= expand_body(body, args, vals));
        instructions
    }
}

} // verus!
