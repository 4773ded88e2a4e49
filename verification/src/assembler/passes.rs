//! The two passes of the assembler over the lines of its source files.
use vstd::prelude::*;
use std::marker::PhantomData;
use crate::assembler::macros::{strs, Macro};
use crate::assembler::model::{
    assembly, block_end, data_directive, declare_label, declare_macro, directive,
    find_file, find_macro, include_file, include_path, initial_state, instruction, last_slash,
    line_step, padding, port_symbols, repeat, run_lines, with_data, with_label, with_program, AsmFail, AsmState,
    lemma_line_step_advances,
    Env, MacroModel, MAX_DEPTH,
};
use crate::assembler::symbols::SymbolTable;
use crate::assembler::anonymous::{anonymous_label, count_side, is_anonymous_kth, steps};
use crate::assembler::syntax::{
    opt_view, split_args_exec, split_line, split_lines, trimmed_code, views,
};
use crate::assembler::values::{
    error_matches, push_repeat, push_strings_exec, push_values_exec, tokens_exec, value_exec,
    AsmError,
};
use crate::cpu::Cpu;
use crate::port::{all_ports, Port};
use crate::text::{chars_of, push_str, str_eq, string_of_range};
use crate::util::mask;

verus! {

/// The paths and texts of source files.
pub open spec fn files_view(files: Seq<(String, String)>) -> Seq<(Seq<char>, Seq<char>)> {
    files.map_values(|f: (String, String)| (f.0@, f.1@))
}

/// What a macro holds.
pub open spec fn macro_model(m: Macro) -> MacroModel {
    MacroModel { args: views(m.args@), body: views(m.instructions@) }
}

/// What a table of macros holds.
pub open spec fn macros_model(v: Seq<(String, Macro)>) -> Seq<(Seq<char>, MacroModel)> {
    v.map_values(|e: (String, Macro)| (e.0@, macro_model(e.1)))
}

/// Parses source into instructions and data.
pub struct Assembler<T> {
    /// The path to the root assembly file.
    path: String,
    current_label: Option<String>,
    /// The instruction bytes.
    pub program: Vec<u8>,
    /// Symbol table: labels, `.set` values and ports.
    pub symbols: SymbolTable,
    /// Statically defined data.
    pub data: Vec<u8>,
    macros: Vec<(String, Macro)>,
    phantom: PhantomData<T>,
}

fn invalid(msg: &str) -> (e: AsmError)
    ensures
        e matches AsmError::Invalid(m) && m@ == msg@,
{
    AsmError::Invalid(msg.to_owned())
}

fn invalid_with(msg: &str, what: &str) -> (e: AsmError)
    ensures
        e matches AsmError::Invalid(m) && m@ == msg@ + what@,
{
    let mut m = msg.to_owned();
    push_str(&mut m, what);
    AsmError::Invalid(m)
}

/// The symbol table that an assembly starts from: the ports and their addresses.
fn port_table() -> (t: SymbolTable)
    ensures
        t@ == port_symbols(all_ports()),
{
    let ports = Port::iter();
    let mut t = SymbolTable::new();
    let mut k: usize = 0;
    while k < ports.len()
        invariant
            k <= ports@.len(),
            ports@ == all_ports(),
            t@ == port_symbols(all_ports().take(k as int)),
        decreases ports@.len() - k,
    {
        let p = ports[k];
        t.insert(p.name().to_owned(), p.address() as u64);
        k = k + 1;
        assert(all_ports().take(k as int).drop_last() =~= all_ports().take(k - 1));
    }
    assert(all_ports().take(k as int) =~= all_ports());
    t
}

/// The index of the first file at `path`.
fn find_file_exec(files: &[(String, String)], path: &str) -> (r: Option<usize>)
    ensures
        match find_file(files_view(files@), path@) {
            None => r is None,
            Some(text) => r matches Some(k) && k < files@.len() && files@[k as int].1@ == text,
        },
{
    let ghost fs = files_view(files@);
    assert(fs.skip(0) =~= fs);
    let mut i: usize = 0;
    while i < files.len()
        invariant
            i <= files@.len(),
            fs == files_view(files@),
            find_file(fs.skip(i as int), path@) == find_file(fs, path@),
        decreases files@.len() - i,
    {
        assert(fs.skip(i as int)[0] == fs[i as int]);
        if str_eq(files[i].0.as_str(), path) {
            return Some(i);
        }
        assert(fs.skip(i as int).skip(1) =~= fs.skip(i + 1));
        i = i + 1;
    }
    None
}

/// The path of a file included as `name` from the root file at `root`.
fn include_path_exec(root: &str, name: &str) -> (r: String)
    ensures
        r@ == include_path(root@, name@),
{
    let ns = chars_of(name);
    if ns.len() > 0 && ns[0] == '/' {
        return name.to_owned();
    }
    let rs = chars_of(root);
    let mut k: usize = rs.len();
    while k > 0 && rs[k - 1] != '/'
        invariant
            k <= rs@.len(),
            rs@ == root@,
            last_slash(root@, k as int) == last_slash(root@, root@.len() as int),
        decreases k,
    {
        k = k - 1;
    }
    let mut r = string_of_range(&rs, 0, k);
    push_str(&mut r, name);
    assert(root@.take(k as int) == rs@.subrange(0, k as int));
    r
}

/// The first line at or after `k` whose code is `word`.
fn block_end_exec(lines: &Vec<String>, k: usize, word: &str) -> (r: usize)
    requires
        k <= lines@.len(),
    ensures
        r == block_end(views(lines@), k as int, word@),
        k <= r <= lines@.len(),
{
    let mut j = k;
    while j < lines.len()
        invariant
            k <= j <= lines@.len(),
            block_end(views(lines@), j as int, word@) == block_end(views(lines@), k as int, word@),
        decreases lines@.len() - j,
    {
        let code = trimmed_code(lines[j].as_str());
        if str_eq(code.as_str(), word) {
            return j;
        }
        j = j + 1;
    }
    j
}

/// Copies the lines `lines[a..b]`.
fn copy_lines(lines: &Vec<String>, a: usize, b: usize) -> (r: Vec<String>)
    requires
        a <= b <= lines@.len(),
    ensures
        views(r@) == views(lines@).subrange(a as int, b as int),
{
    let mut r: Vec<String> = Vec::new();
    let mut j = a;
    while j < b
        invariant
            a <= j <= b <= lines@.len(),
            views(r@) == views(lines@).subrange(a as int, j as int),
        decreases b - j,
    {
        let ghost before = views(r@);
        let line = lines[j].clone();
        r.push(line);
        assert(views(r@) =~= before.push(lines@[j as int]@));
        j = j + 1;
        assert(views(r@) =~= views(lines@).subrange(a as int, j as int));
    }
    r
}

/// The strings of `v`, borrowed.
fn str_refs(v: &Vec<String>) -> (r: Vec<&str>)
    ensures
        strs(r@) == views(v@),
{
    let mut r: Vec<&str> = Vec::new();
    let mut j: usize = 0;
    while j < v.len()
        invariant
            j <= v@.len(),
            strs(r@) == views(v@).take(j as int),
        decreases v@.len() - j,
    {
        let ghost before = strs(r@);
        let x = v[j].as_str();
        r.push(x);
        assert(strs(r@) =~= before.push(v@[j as int]@));
        j = j + 1;
        assert(strs(r@) =~= views(v@).take(j as int));
    }
    assert(views(v@).take(j as int) =~= views(v@));
    r
}

/// Appends the bytes of `b` to `v`.
fn append_bytes(v: &mut Vec<u8>, b: &Vec<u8>)
    ensures
        final(v)@ == old(v)@ + b@,
{
    let mut j: usize = 0;
    while j < b.len()
        invariant
            j <= b@.len(),
            v@ == old(v)@ + b@.take(j as int),
        decreases b@.len() - j,
    {
        v.push(b[j]);
        j = j + 1;
        assert(v@ =~= old(v)@ + b@.take(j as int));
    }
    assert(b@.take(j as int) =~= b@);
}

impl<T: Cpu> Assembler<T> {
    /// The state of the assembly: `program`, `data` and `symbols` are the
    /// fields of the same names; the macros and the pending label are private.
    pub closed spec fn model(&self) -> AsmState {
        AsmState {
            program: self.program@,
            data: self.data@,
            symbols: self.symbols@,
            macros: macros_model(self.macros@),
            label: opt_view(self.current_label),
        }
    }

    /// The symbol table, the field `symbols`.
    pub closed spec fn table(&self) -> SymbolTable {
        self.symbols
    }

    /// What a pass over the sources reads.
    pub closed spec fn env(&self, files: Seq<(String, String)>, second: bool) -> Env {
        Env { root: self.path@, files: files_view(files), second }
    }

    /// The index of the first macro named `name`.
    fn find_macro_exec(&self, name: &str) -> (r: Option<usize>)
        ensures
            match find_macro(self.model().macros, name@) {
                None => r is None,
                Some(m) => r matches Some(k) && k < self.macros@.len() && macro_model(self.macros@[k as int].1) == m,
            },
    {
        let ghost ms = macros_model(self.macros@);
        assert(ms.skip(0) =~= ms);
        let mut i: usize = 0;
        while i < self.macros.len()
            invariant
                i <= self.macros@.len(),
                ms == macros_model(self.macros@),
                find_macro(ms.skip(i as int), name@) == find_macro(ms, name@),
            decreases self.macros@.len() - i,
        {
            assert(ms.skip(i as int)[0] == ms[i as int]);
            if str_eq(self.macros[i].0.as_str(), name) {
                return Some(i);
            }
            assert(ms.skip(i as int).skip(1) =~= ms.skip(i + 1));
            i = i + 1;
        }
        None
    }

    /// Binds the pending label, if there is one, to `value`.
    fn declare_label(&mut self, value: u64) -> (r: Result<(), AsmError>)
        ensures
            final(self).path == old(self).path,
            match declare_label(old(self).model(), value) {
                Ok(s) => r is Ok && final(self).model() == s,
                Err(f) => r matches Err(e) && error_matches(e, f),
            },
            final(self).model().label is None,
            r is Err ==> final(self).model().symbols == old(self).model().symbols,
    {
        let taken = self.current_label.take();
        match taken {
            None => Ok(()),
            Some(label) => {
                if self.find_macro_exec(label.as_str()).is_some() || self.symbols.contains_key(label.as_str()) {
                    return Err(invalid_with("label already defined: ", label.as_str()));
                }
                self.symbols.insert(label, value);
                Ok(())
            },
        }
    }

    /// Names the macro `m` after the pending label, if there is one.
    fn declare_macro(&mut self, m: Macro) -> (r: Result<(), AsmError>)
        ensures
            final(self).path == old(self).path,
            match declare_macro(old(self).model(), macro_model(m)) {
                Ok(s) => r is Ok && final(self).model() == s,
                Err(f) => r matches Err(e) && error_matches(e, f),
            },
    {
        let taken = self.current_label.take();
        match taken {
            None => Ok(()),
            Some(label) => {
                if self.find_macro_exec(label.as_str()).is_some() || self.symbols.contains_key(label.as_str()) {
                    return Err(invalid("macro already defined"));
                }
                let ghost before = self.macros@;
                self.macros.push((label, m));
                assert(macros_model(self.macros@) =~= macros_model(before).push((label@, macro_model(m))));
                Ok(())
            },
        }
    }

    /// The directives that only add data, and `.set`.
    fn data_directive_exec(&mut self, name: &str, args: &Vec<String>, second: bool) -> (r: Result<(), AsmError>)
        ensures
            final(self).path == old(self).path,
            match data_directive(second, old(self).model(), name@, views(args@)) {
                Ok(s) => r is Ok && final(self).model() == s,
                Err(f) => r matches Err(e) && error_matches(e, f),
            },
    {
        if str_eq(name, "set") {
            if second {
                return Ok(());
            }
            if args.len() == 0 {
                return Err(invalid("Expected at least one argument"));
            }
            let v = match value_exec(args[0].as_str(), &self.symbols, true) {
                Ok(v) => v,
                Err(e) => return Err(e),
            };
            return self.declare_label(v);
        }
        if str_eq(name, "align") {
            if args.len() == 0 {
                return Err(invalid("Expected at least one argument"));
            }
            let n = match value_exec(args[0].as_str(), &self.symbols, second) {
                Ok(n) => n,
                Err(e) => return Err(e),
            };
            if n >= 64 {
                return Err(invalid("Alignment too large"));
            }
            let len = self.data.len() as u64;
            let m: u64 = 1u64 << n;
            proof {
                vstd::bits::lemma_u64_pow2_no_overflow(n as nat);
                vstd::bits::lemma_u64_shl_is_mul(1, n);
                vstd::arithmetic::power2::lemma_pow2_pos(n as nat);
            }
            let pad = (m - len % m) % m;
            let ghost st = self.model();
            push_repeat(&mut self.data, 0, pad);
            assert(self.model() =~= with_data(st, st.data + repeat(0, padding(st.data.len(), n))));
            if second {
                return Ok(());
            }
            let offset = self.data.len() as u64;
            return self.declare_label(offset);
        }
        let is_i8 = str_eq(name, "i8");
        let is_i16 = str_eq(name, "i16");
        let is_zero = str_eq(name, "zero");
        let is_fill = str_eq(name, "fill");
        let is_strz = str_eq(name, "strz");
        if !(is_i8 || is_i16 || is_zero || is_fill || is_strz) {
            return Err(invalid_with("unknown directive: ", name));
        }
        if !second {
            let offset = self.data.len() as u64;
            match self.declare_label(offset) {
                Ok(()) => {},
                Err(e) => return Err(e),
            }
        }
        let ghost s1 = self.model();
        if is_i8 || is_i16 {
            let r = push_values_exec(&mut self.data, args, &self.symbols, second, is_i16);
            proof {
                if r is Ok {
                    assert(self.model() =~= with_data(s1, self.data@));
                }
            }
            r
        } else if is_zero {
            if args.len() == 0 {
                return Err(invalid("Expected at least one argument"));
            }
            let n = match value_exec(args[0].as_str(), &self.symbols, second) {
                Ok(n) => n,
                Err(e) => return Err(e),
            };
            push_repeat(&mut self.data, 0, n);
            assert(self.model() =~= with_data(s1, self.data@));
            Ok(())
        } else if is_fill {
            if args.len() < 2 {
                return Err(invalid("Expected a value and a count"));
            }
            let v = match value_exec(args[0].as_str(), &self.symbols, second) {
                Ok(v) => v,
                Err(e) => return Err(e),
            };
            let b = match mask::<u8>(v, 8) {
                Ok(b) => b,
                Err(m) => return Err(AsmError::Invalid(m)),
            };
            let n = match value_exec(args[1].as_str(), &self.symbols, second) {
                Ok(n) => n,
                Err(e) => return Err(e),
            };
            push_repeat(&mut self.data, b, n);
            assert(self.model() =~= with_data(s1, self.data@));
            Ok(())
        } else {
            let r = push_strings_exec(&mut self.data, args);
            proof {
                if r is Ok {
                    assert(self.model() =~= with_data(s1, self.data@));
                }
            }
            r
        }
    }

    /// Handles the directive `.name args` on line `i`; gives the next line to read.
    fn directive(
        &mut self,
        files: &[(String, String)],
        name: &str,
        args: Vec<String>,
        lines: &Vec<String>,
        i: usize,
        second: bool,
        depth: usize,
    ) -> (r: Result<usize, AsmError>)
        requires
            i < lines@.len(),
        ensures
            final(self).path == old(self).path,
            match directive::<T>(old(self).env(files@, second), old(self).model(), name@, views(args@), views(lines@), i as int, depth as nat) {
                Ok((s, j)) => r matches Ok(k) && k == j && final(self).model() == s,
                Err(f) => r matches Err(e) && error_matches(e, f),
            },
        decreases depth, 1nat,
    {
        let n_lines = lines.len();
        if str_eq(name, "macro") {
            let t = block_end_exec(lines, i + 1, ".endm");
            let next = if t < lines.len() { t + 1 } else { t };
            if second {
                self.current_label = None;
                return Ok(next);
            }
            let body = copy_lines(lines, i + 1, t);
            let m = Macro::new(args, body);
            match self.declare_macro(m) {
                Ok(()) => {
                    self.current_label = None;
                    Ok(next)
                },
                Err(e) => Err(e),
            }
        } else if str_eq(name, "if") {
            if args.len() == 0 {
                return Err(invalid("Expected at least one argument"));
            }
            let v = match value_exec(args[0].as_str(), &self.symbols, true) {
                Ok(v) => v,
                Err(e) => return Err(e),
            };
            self.current_label = None;
            if v == 0 {
                let t = block_end_exec(lines, i + 1, ".endif");
                Ok(if t < lines.len() { t + 1 } else { t })
            } else {
                Ok(i + 1)
            }
        } else if str_eq(name, "endif") {
            self.current_label = None;
            Ok(i + 1)
        } else if str_eq(name, "include") {
            if args.len() == 0 {
                return Err(invalid("Expected a file name"));
            }
            let cs = chars_of(args[0].as_str());
            let n = cs.len();
            if !(n >= 2 && cs[0] == '"' && cs[n - 1] == '"') {
                return Err(invalid_with("Expected a file name: ", args[0].as_str()));
            }
            let file = string_of_range(&cs, 1, n - 1);
            let path = include_path_exec(self.path.as_str(), file.as_str());
            match self.assemble_file(files, path.as_str(), second, depth) {
                Ok(()) => {
                    self.current_label = None;
                    Ok(i + 1)
                },
                Err(e) => Err(e),
            }
        } else {
            match self.data_directive_exec(name, &args, second) {
                Ok(()) => {
                    self.current_label = None;
                    Ok(i + 1)
                },
                Err(e) => Err(e),
            }
        }
    }

    /// Handles an instruction, or a macro invocation, whose opcode is `head`.
    fn instruction(
        &mut self,
        files: &[(String, String)],
        head: &str,
        args: Vec<String>,
        second: bool,
        depth: usize,
    ) -> (r: Result<(), AsmError>)
        ensures
            final(self).path == old(self).path,
            match instruction::<T>(old(self).env(files@, second), old(self).model(), head@, views(args@), depth as nat) {
                Ok(s) => r is Ok && final(self).model() == s,
                Err(f) => r matches Err(e) && error_matches(e, f),
            },
        decreases depth, 1nat,
    {
        match self.find_macro_exec(head) {
            Some(k) => {
                if depth == 0 {
                    return Err(invalid("Nesting too deep"));
                }
                let refs = str_refs(&args);
                let body = self.macros[k].1.expand(&refs);
                match self.run_lines(files, &body, second, depth - 1) {
                    Ok(()) => {
                        self.current_label = None;
                        Ok(())
                    },
                    Err(e) => Err(e),
                }
            },
            None => {
                if !second {
                    let address = self.program.len() as u64;
                    match self.declare_label(address) {
                        Ok(()) => {},
                        Err(e) => return Err(e),
                    }
                }
                let tokens = match tokens_exec::<T>(head, &args, &self.symbols, second) {
                    Ok(t) => t,
                    Err(e) => return Err(e),
                };
                let ghost s1 = self.model();
                match T::parse(tokens, self.program.len() as u64) {
                    Ok(bytes) => {
                        append_bytes(&mut self.program, &bytes);
                        self.current_label = None;
                        assert(self.model() =~= with_label(with_program(s1, s1.program + bytes@), None));
                        Ok(())
                    },
                    Err(m) => Err(AsmError::Invalid(m)),
                }
            },
        }
    }

    /// Handles line `i`; gives the next line to read.
    fn line_step(
        &mut self,
        files: &[(String, String)],
        lines: &Vec<String>,
        i: usize,
        second: bool,
        depth: usize,
    ) -> (r: Result<usize, AsmError>)
        requires
            i < lines@.len(),
        ensures
            final(self).path == old(self).path,
            match line_step::<T>(old(self).env(files@, second), old(self).model(), views(lines@), i as int, depth as nat) {
                Ok((s, j)) => r matches Ok(k) && k == j && final(self).model() == s,
                Err(f) => r matches Err(e) && error_matches(e, f),
            },
        decreases depth, 2nat,
    {
        let n_lines = lines.len();
        let parts = split_line(lines[i].as_str());
        match parts.label {
            Some(l) => {
                self.current_label = Some(l);
            },
            None => {},
        }
        let hc = chars_of(parts.head.as_str());
        if hc.len() == 0 {
            return Ok(i + 1);
        }
        let args = split_args_exec(parts.rest.as_str());
        if hc[0] == '.' {
            let name = string_of_range(&hc, 1, hc.len());
            assert(name@ == parts.head@.skip(1));
            self.directive(files, name.as_str(), args, lines, i, second, depth)
        } else {
            match self.instruction(files, parts.head.as_str(), args, second, depth) {
                Ok(()) => Ok(i + 1),
                Err(e) => Err(e),
            }
        }
    }

    /// Assembles `lines`.
    fn run_lines(&mut self, files: &[(String, String)], lines: &Vec<String>, second: bool, depth: usize) -> (r: Result<(), AsmError>)
        ensures
            final(self).path == old(self).path,
            match run_lines::<T>(old(self).env(files@, second), old(self).model(), views(lines@), 0, depth as nat) {
                Ok(s) => r is Ok && final(self).model() == s,
                Err(f) => r matches Err(e) && error_matches(e, f),
            },
        decreases depth, 3nat,
    {
        let ghost env = self.env(files@, second);
        let ghost target = run_lines::<T>(env, self.model(), views(lines@), 0, depth as nat);
        let mut i: usize = 0;
        while i < lines.len()
            invariant
                i <= lines@.len(),
                self.path == old(self).path,
                env == self.env(files@, second),
                env == old(self).env(files@, second),
                target == run_lines::<T>(old(self).env(files@, second), old(self).model(), views(lines@), 0, depth as nat),
                target == run_lines::<T>(env, self.model(), views(lines@), i as int, depth as nat),
            decreases lines@.len() - i,
        {
            let ghost st = self.model();
            proof {
                lemma_line_step_advances::<T>(env, st, views(lines@), i as int, depth as nat);
            }
            match self.line_step(files, lines, i, second, depth) {
                Ok(j) => {
                    i = j;
                },
                Err(e) => {
                    assert(run_lines::<T>(env, st, views(lines@), i as int, depth as nat)
                        == Err::<AsmState, AsmFail>(line_step::<T>(env, st, views(lines@), i as int, depth as nat)->Err_0));
                    return Err(e);
                },
            }
        }
        Ok(())
    }

    /// Assembles the file at `path`: its lines, then, in the first pass, its dangling label.
    fn assemble_file(&mut self, files: &[(String, String)], path: &str, second: bool, depth: usize) -> (r: Result<(), AsmError>)
        ensures
            final(self).path == old(self).path,
            match include_file::<T>(old(self).env(files@, second), old(self).model(), path@, depth as nat) {
                Ok(s) => r is Ok && final(self).model() == s,
                Err(f) => r matches Err(e) && error_matches(e, f),
            },
        decreases depth, 0nat,
    {
        if depth == 0 {
            return Err(invalid("Nesting too deep"));
        }
        match find_file_exec(files, path) {
            None => {
                let mut msg = String::new();
                push_str(&mut msg, path);
                Err(AsmError::MissingFile(msg))
            },
            Some(k) => {
                let lines = split_lines(files[k].1.as_str());
                match self.run_lines(files, &lines, second, depth - 1) {
                    Ok(()) => {},
                    Err(e) => return Err(e),
                }
                if second {
                    Ok(())
                } else {
                    let address = self.program.len() as u64;
                    self.declare_label(address)
                }
            },
        }
    }

    /// Assembles the file at `path`, whose text, and the texts of the files
    /// it includes, are among `files` (paths and texts); a division by zero
    /// is reported, not a panic.
    ///
    /// # Errors
    ///
    /// A file that the assembly needs is missing from `files`; the source is
    /// not valid assembly; an expression divides by zero.
    pub fn try_assemble(path: &str, files: &[(String, String)]) -> (r: Result<Assembler<T>, AsmError>)
        ensures
            match assembly::<T>(path@, files_view(files@)) {
                Ok(s) => r matches Ok(a) && a.model().program == s.program && a.model().data == s.data && a.model().symbols == s.symbols,
                Err(f) => r matches Err(e) && error_matches(e, f),
            },
    {
        let symbols = port_table();
        let mut assembler = Assembler {
            path: path.to_owned(),
            current_label: None,
            program: Vec::new(),
            symbols,
            data: Vec::new(),
            macros: Vec::new(),
            phantom: PhantomData,
        };
        assert(assembler.model() =~= initial_state());
        assert(assembler.env(files@, false) == Env { root: path@, files: files_view(files@), second: false });
        match assembler.assemble_file(files, path, false, MAX_DEPTH) {
            Ok(()) => {},
            Err(e) => return Err(e),
        }
        let ghost first = assembler.model();
        assembler.data.clear();
        assembler.program.clear();
        assert(assembler.model() =~= with_data(with_program(first, Seq::empty()), Seq::empty()));
        match assembler.assemble_file(files, path, true, MAX_DEPTH) {
            Ok(()) => {},
            Err(e) => return Err(e),
        }
        Ok(assembler)
    }

    /// Assembles the file at `path`, whose text, and the texts of the files
    /// it includes, are among `files` (paths and texts).
    ///
    /// # Errors
    ///
    /// `Failed to read <path>` when a file is missing from `files`, or a
    /// message that says why the source is not valid assembly: the fixed
    /// messages of the assembler (a label or macro defined twice, a missing
    /// argument, an unknown directive, a value that does not fit, ...) as
    /// the specification gives them, or the processor's own message for
    /// tokens that form no instruction.
    pub fn assemble(path: &str, files: &[(String, String)]) -> (r: Result<Assembler<T>, String>)
        requires
            !(assembly::<T>(path@, files_view(files@)) matches Err(AsmFail::DivZero)),
        ensures
            match assembly::<T>(path@, files_view(files@)) {
                Ok(s) => r matches Ok(a) && a.model().program == s.program && a.model().data == s.data && a.model().symbols == s.symbols,
                Err(AsmFail::Missing(p)) => r matches Err(m) && m@ == "Failed to read "@ + p,
                Err(AsmFail::Invalid) => r is Err,
                Err(AsmFail::Refused(msg)) => r matches Err(m) && m@ == msg,
                Err(AsmFail::DivZero) => false,
            },
    {
        match Self::try_assemble(path, files) {
            Ok(a) => Ok(a),
            Err(AsmError::MissingFile(p)) => {
                let mut m = "Failed to read ".to_owned();
                push_str(&mut m, p.as_str());
                Err(m)
            },
            Err(AsmError::Invalid(m)) => Err(m),
            Err(AsmError::DivisionByZero) => Err("division by zero".to_owned()),
        }
    }

    /// The anonymous label `|offset|` steps away from `address`: among the
    /// values of the symbols whose names start with `@`, the `offset`-th
    /// after `address` counting upwards when `offset` is positive, the
    /// `-offset`-th before it counting downwards when it is negative, and
    /// `address` itself when `offset` is 0.
    ///
    /// # Errors
    ///
    /// `Anon label landed outside range` when there are fewer such labels.
    pub fn get_anonymous_label(&self, address: u64, offset: isize) -> (r: Result<u64, String>)
        ensures
            offset == 0 ==> r == Ok::<u64, String>(address),
            offset != 0 ==> (r is Ok <==> steps(offset) <= count_side(self.table().names(), self.table().values(), self.table().names().len() as int, address, offset < 0)),
            offset != 0 ==> (r matches Ok(v) ==> is_anonymous_kth(self.table().names(), self.table().values(), address, offset, v)),
            r matches Err(m) ==> m@ == "Anon label landed outside range"@,
    {
        if offset == 0 {
            return Ok(address);
        }
        anonymous_label(&self.symbols, address, offset)
    }
}

impl<T: Cpu> Default for Assembler<T> {
    /// An assembler with no program, no data, no macros, and the ports as
    /// its only symbols.
    fn default() -> (a: Self)
        ensures
            a.model() == initial_state(),
    {
        let a = Assembler {
            path: String::new(),
            current_label: None,
            program: Vec::new(),
            symbols: port_table(),
            data: Vec::new(),
            macros: Vec::new(),
            phantom: PhantomData,
        };
        assert(a.model() =~= initial_state());
        a
    }
}

} // verus!
