//! The emission engine: a `Writer` owns a destination path, a configured
//! wrap width and an append-only in-memory text buffer, and appends one
//! formatted construct per call. The buffer is the writer's view: every
//! emission contract states exactly which characters the call appends.
//!
//! Persisting the buffer to the destination is the caller's affair; the
//! writer only hands the buffer out (`as_str`) together with the destination
//! path it was given (`path`).

use vstd::prelude::*;

use crate::escape::escape_spec;
use crate::text::dec_digits;
use crate::text::push_decimal;
use crate::text::push_str_chars;
use crate::wrap::append_wrapped;
use crate::wrap::wrap_spec;

verus! {

/// The default configured wrap width, in columns.
pub const DEFAULT_WIDTH: usize = 78;

/// A single line: its text followed by a line break.
pub open spec fn line_spec(l: Seq<char>) -> Seq<char> {
    l + seq!['\n']
}

/// A comment line.
pub open spec fn comment_spec(text: Seq<char>) -> Seq<char> {
    line_spec("# "@ + text)
}

/// A variable binding, wrapped at the given indent level.
pub open spec fn variable_spec(key: Seq<char>, value: Seq<char>, indent: int, width: int) -> Seq<
    char,
> {
    wrap_spec(key + " = "@ + value, indent, width)
}

/// The tokens of `ts` joined with single spaces.
pub open spec fn join_from(ts: Seq<Seq<char>>, k: int) -> Seq<char>
    decreases ts.len() - k,
{
    if k < 0 || k >= ts.len() {
        Seq::empty()
    } else if k == ts.len() - 1 {
        ts[k]
    } else {
        ts[k] + seq![' '] + join_from(ts, k + 1)
    }
}

/// A list of raw values joined with single spaces.
pub open spec fn join_tokens(ts: Seq<Seq<char>>) -> Seq<char> {
    join_from(ts, 0)
}

/// A variable bound to a space-joined list of raw values.
pub open spec fn variable_list_spec(
    key: Seq<char>,
    values: Seq<Seq<char>>,
    indent: int,
    width: int,
) -> Seq<char> {
    variable_spec(key, join_tokens(values), indent, width)
}

/// A pool: its header line and its nested depth binding.
pub open spec fn pool_spec(name: Seq<char>, depth: int, width: int) -> Seq<char> {
    line_spec("pool "@ + name) + variable_spec("depth"@, dec_digits(depth), 1, width)
}

/// An optional nested binding: emitted only when present and non-empty.
pub open spec fn opt_var_spec(key: Seq<char>, o: Option<Seq<char>>, width: int) -> Seq<char> {
    match o {
        Option::Some(v) => if v.len() > 0 {
            variable_spec(key, v, 1, width)
        } else {
            Seq::empty()
        },
        Option::None => Seq::empty(),
    }
}

/// A boolean nested binding: `1` when set, nothing otherwise.
pub open spec fn flag_var_spec(key: Seq<char>, b: bool, width: int) -> Seq<char> {
    if b {
        variable_spec(key, "1"@, 1, width)
    } else {
        Seq::empty()
    }
}

/// A rule: its header line, its command binding and its optional metadata
/// bindings, in this fixed order.
pub open spec fn rule_spec(r: crate::entities::RuleV, width: int) -> Seq<char> {
    wrap_spec("rule "@ + r.name, 0, width) + variable_spec("command"@, r.command, 1, width)
        + opt_var_spec("description"@, r.description, width) + opt_var_spec(
        "depfile"@,
        r.depfile,
        width,
    ) + flag_var_spec("generator"@, r.generator, width) + opt_var_spec("pool"@, r.pool, width)
        + flag_var_spec("restat"@, r.restat, width) + opt_var_spec("rspfile"@, r.rspfile, width)
        + opt_var_spec("rspfile_content"@, r.rspfile_content, width) + opt_var_spec(
        "deps"@,
        r.deps,
        width,
    )
}

/// The tokens before the colon of a build header: the escaped outputs,
/// then — when implicit outputs are present — a `|` token and the escaped
/// implicit outputs.
pub open spec fn out_tokens(b: crate::entities::BuildV) -> Seq<Seq<char>> {
    crate::escape::escape_all(b.outputs) + if b.implicit_outputs.len() > 0 {
        seq![seq!['|']] + crate::escape::escape_all(b.implicit_outputs)
    } else {
        Seq::empty()
    }
}

/// The tokens after the colon of a build header: the rule name, the escaped
/// inputs, then — when present — a `|` token and the escaped implicit
/// inputs, and a `||` token and the escaped order-only inputs.
pub open spec fn in_tokens(b: crate::entities::BuildV) -> Seq<Seq<char>> {
    seq![b.rule] + crate::escape::escape_all(b.inputs) + (if b.implicit.len() > 0 {
        seq![seq!['|']] + crate::escape::escape_all(b.implicit)
    } else {
        Seq::empty()
    }) + (if b.order_only.len() > 0 {
        seq![seq!['|', '|']] + crate::escape::escape_all(b.order_only)
    } else {
        Seq::empty()
    })
}

/// The logical header line of a build edge.
pub open spec fn build_line(b: crate::entities::BuildV) -> Seq<char> {
    "build "@ + join_tokens(out_tokens(b)) + ": "@ + join_tokens(in_tokens(b))
}

/// The edge-scoped variable bindings from index `k` on, each as a nested
/// binding, in the order they were given.
pub open spec fn edge_vars_spec(vs: Seq<(Seq<char>, Seq<char>)>, k: int, width: int) -> Seq<char>
    decreases vs.len() - k,
{
    if k < 0 || k >= vs.len() {
        Seq::empty()
    } else {
        variable_spec(vs[k].0, vs[k].1, 1, width) + edge_vars_spec(vs, k + 1, width)
    }
}

/// A build edge: its wrapped header line, then its optional pool and dyndep
/// bindings, then its edge-scoped variables.
pub open spec fn build_spec(b: crate::entities::BuildV, width: int) -> Seq<char> {
    wrap_spec(build_line(b), 0, width) + opt_var_spec("pool"@, b.pool, width) + opt_var_spec(
        "dyndep"@,
        b.dyndep,
        width,
    ) + edge_vars_spec(b.variables, 0, width)
}

/// The build edges from index `k` on, each emitted in turn, each followed by
/// one blank line when `add_newlines` is set.
pub open spec fn builds_spec(
    bs: Seq<crate::entities::BuildV>,
    k: int,
    add_newlines: bool,
    width: int,
) -> Seq<char>
    decreases bs.len() - k,
{
    if k < 0 || k >= bs.len() {
        Seq::empty()
    } else {
        build_spec(bs[k], width) + (if add_newlines {
            seq!['\n']
        } else {
            Seq::<char>::empty()
        }) + builds_spec(bs, k + 1, add_newlines, width)
    }
}

/// The rules from index `k` on, each emitted in turn, each followed by one
/// blank line when `add_newlines` is set.
pub open spec fn rules_spec(
    rs: Seq<crate::entities::RuleV>,
    k: int,
    add_newlines: bool,
    width: int,
) -> Seq<char>
    decreases rs.len() - k,
{
    if k < 0 || k >= rs.len() {
        Seq::empty()
    } else {
        rule_spec(rs[k], width) + (if add_newlines {
            seq!['\n']
        } else {
            Seq::<char>::empty()
        }) + rules_spec(rs, k + 1, add_newlines, width)
    }
}

/// The variable bindings from index `k` on, each emitted at indent level
/// zero, each followed by one blank line when `add_newlines` is set.
pub open spec fn bindings_spec(
    vs: Seq<crate::entities::VariableV>,
    k: int,
    add_newlines: bool,
    width: int,
) -> Seq<char>
    decreases vs.len() - k,
{
    if k < 0 || k >= vs.len() {
        Seq::empty()
    } else {
        variable_spec(vs[k].name, vs[k].value, 0, width) + (if add_newlines {
            seq!['\n']
        } else {
            Seq::<char>::empty()
        }) + bindings_spec(vs, k + 1, add_newlines, width)
    }
}

/// The writer.
pub struct Writer {
    file_path: String,
    width: usize,
    buffer: Vec<char>,
}

impl View for Writer {
    type V = Seq<char>;

    closed spec fn view(&self) -> Seq<char> {
        self.buffer@
    }
}

impl Writer {
    /// The configured wrap width.
    pub closed spec fn wrap_width(&self) -> int {
        self.width as int
    }

    /// The destination path the writer was given.
    pub closed spec fn path_spec(&self) -> Seq<char> {
        self.file_path@
    }

    /// A writer in its working state: the width it was constructed with.
    pub open spec fn wf(&self) -> bool {
        self.wrap_width() == DEFAULT_WIDTH
    }

    /// A fresh writer for the given destination path, with an empty buffer
    /// and the default wrap width.
    pub fn new(file_path: &str) -> (r: Writer)
        ensures
            r@ == Seq::<char>::empty(),
            r.path_spec() == file_path@,
            r.wf(),
    {
        Writer { file_path: file_path.to_owned(), width: DEFAULT_WIDTH, buffer: Vec::new() }
    }

    /// The buffer contents so far.
    pub fn as_str(&self) -> (s: String)
        ensures
            s@ == self@,
    {
        crate::text::chars_to_string(&self.buffer)
    }

    /// The destination path the writer was given.
    pub fn path(&self) -> (p: &str)
        ensures
            p@ == self.path_spec(),
    {
        self.file_path.as_str()
    }

    /// Appends a comment line. The text is emitted verbatim, unwrapped.
    pub fn comment(self, comment: &str) -> (r: Writer)
        ensures
            r@ == self@ + comment_spec(comment@),
            r.path_spec() == self.path_spec(),
            r.wrap_width() == self.wrap_width(),
    {
        let mut s = self;
        push_str_chars(&mut s.buffer, "# ");
        push_str_chars(&mut s.buffer, comment);
        s.buffer.push('\n');
        proof {
            assert(s.buffer@ =~= self.buffer@ + comment_spec(comment@));
        }
        s
    }

    /// Appends a blank line.
    pub fn newline(self) -> (r: Writer)
        ensures
            r@ == self@ + seq!['\n'],
            r.path_spec() == self.path_spec(),
            r.wrap_width() == self.wrap_width(),
    {
        let mut s = self;
        s.buffer.push('\n');
        s
    }

    /// Appends a variable binding at the given indent level. The value is
    /// emitted verbatim (no escaping); the composed line is wrapped.
    pub fn variable(self, key: &str, value: &str, indent: usize) -> (r: Writer)
        requires
            self.wf(),
            2 * indent <= self.wrap_width(),
        ensures
            r@ == self@ + variable_spec(key@, value@, indent as int, self.wrap_width()),
            r.path_spec() == self.path_spec(),
            r.wrap_width() == self.wrap_width(),
    {
        let mut s = self;
        append_variable(&mut s.buffer, key, value, indent, s.width);
        s
    }

    /// Appends a variable bound to a space-joined list of raw values.
    pub fn variable_list(self, key: &str, value: &[&str], indent: usize) -> (r: Writer)
        requires
            self.wf(),
            2 * indent <= self.wrap_width(),
        ensures
            r@ == self@ + variable_list_spec(
                key@,
                crate::entities::strs_view(value@),
                indent as int,
                self.wrap_width(),
            ),
            r.path_spec() == self.path_spec(),
            r.wrap_width() == self.wrap_width(),
    {
        let mut s = self;
        let mut line: Vec<char> = Vec::new();
        push_str_chars(&mut line, key);
        push_str_chars(&mut line, " = ");
        let n = value.len();
        let mut i: usize = 0;
        let ghost vals = crate::entities::strs_view(value@);
        while i < n
            invariant
                i <= n,
                n == vals.len(),
                vals == crate::entities::strs_view(value@),
                line@ + join_from(vals, i as int) == key@ + " = "@ + join_tokens(vals),
            decreases n - i,
        {
            let ghost pre = line@;
            push_str_chars(&mut line, value[i]);
            if i + 1 < n {
                line.push(' ');
                proof {
                    assert(line@ =~= pre + (vals[i as int] + seq![' ']));
                    assert(line@ + join_from(vals, i + 1) =~= pre + join_from(vals, i as int));
                }
            } else {
                proof {
                    assert(line@ + join_from(vals, i + 1) =~= pre + join_from(vals, i as int));
                }
            }
            i = i + 1;
        }
        proof {
            assert(line@ =~= key@ + " = "@ + join_tokens(vals));
        }
        append_wrapped(&mut s.buffer, &line, indent, s.width);
        s
    }

    /// Appends a pool: its header line and its nested depth binding.
    pub fn pool(self, name: &str, depth: usize) -> (r: Writer)
        requires
            self.wf(),
        ensures
            r@ == self@ + pool_spec(name@, depth as int, self.wrap_width()),
            r.path_spec() == self.path_spec(),
            r.wrap_width() == self.wrap_width(),
    {
        let mut s = self;
        push_str_chars(&mut s.buffer, "pool ");
        push_str_chars(&mut s.buffer, name);
        s.buffer.push('\n');
        let ghost after_header = s.buffer@;
        proof {
            assert(after_header =~= self.buffer@ + line_spec("pool "@ + name@));
        }
        let mut line: Vec<char> = Vec::new();
        push_str_chars(&mut line, "depth = ");
        push_decimal(&mut line, depth);
        proof {
            assert(line@ =~= "depth"@ + " = "@ + dec_digits(depth as int)) by {
                reveal_strlit("depth = ");
                reveal_strlit("depth");
                reveal_strlit(" = ");
            }
        }
        append_wrapped(&mut s.buffer, &line, 1, s.width);
        proof {
            assert(s.buffer@ =~= self.buffer@ + pool_spec(name@, depth as int, s.width as int));
        }
        s
    }
}

impl Writer {
    /// Appends a rule: its header line, its command and its optional
    /// metadata, each on its own indented, wrapped line.
    #[verifier::rlimit(60)]
    pub fn rule(self, rule: &crate::entities::Rule) -> (r: Writer)
        requires
            self.wf(),
        ensures
            r@ == self@ + rule_spec(rule@, self.wrap_width()),
            r.path_spec() == self.path_spec(),
            r.wrap_width() == self.wrap_width(),
    {
        let mut s = self;
        let mut line: Vec<char> = Vec::new();
        push_str_chars(&mut line, "rule ");
        push_str_chars(&mut line, rule.name.as_str());
        proof {
            assert(line@ =~= "rule "@ + rule@.name);
        }
        let ghost w = s.width as int;
        append_wrapped(&mut s.buffer, &line, 0, s.width);
        let ghost mut acc = wrap_spec("rule "@ + rule@.name, 0, w);
        append_variable(&mut s.buffer, "command", rule.command.as_str(), 1, s.width);
        proof {
            let p = variable_spec("command"@, rule@.command, 1, w);
            assert(s.buffer@ =~= self.buffer@ + (acc + p));
            acc = acc + p;
        }
        append_opt_var(&mut s.buffer, "description", &rule.description, s.width);
        proof {
            let p = opt_var_spec("description"@, rule@.description, w);
            assert(s.buffer@ =~= self.buffer@ + (acc + p));
            acc = acc + p;
        }
        append_opt_var(&mut s.buffer, "depfile", &rule.depfile, s.width);
        proof {
            let p = opt_var_spec("depfile"@, rule@.depfile, w);
            assert(s.buffer@ =~= self.buffer@ + (acc + p));
            acc = acc + p;
        }
        append_flag_var(&mut s.buffer, "generator", rule.generator, s.width);
        proof {
            let p = flag_var_spec("generator"@, rule@.generator, w);
            assert(s.buffer@ =~= self.buffer@ + (acc + p));
            acc = acc + p;
        }
        append_opt_var(&mut s.buffer, "pool", &rule.pool, s.width);
        proof {
            let p = opt_var_spec("pool"@, rule@.pool, w);
            assert(s.buffer@ =~= self.buffer@ + (acc + p));
            acc = acc + p;
        }
        append_flag_var(&mut s.buffer, "restat", rule.restat, s.width);
        proof {
            let p = flag_var_spec("restat"@, rule@.restat, w);
            assert(s.buffer@ =~= self.buffer@ + (acc + p));
            acc = acc + p;
        }
        append_opt_var(&mut s.buffer, "rspfile", &rule.rspfile, s.width);
        proof {
            let p = opt_var_spec("rspfile"@, rule@.rspfile, w);
            assert(s.buffer@ =~= self.buffer@ + (acc + p));
            acc = acc + p;
        }
        append_opt_var(&mut s.buffer, "rspfile_content", &rule.rspfile_content, s.width);
        proof {
            let p = opt_var_spec("rspfile_content"@, rule@.rspfile_content, w);
            assert(s.buffer@ =~= self.buffer@ + (acc + p));
            acc = acc + p;
        }
        append_opt_var(&mut s.buffer, "deps", &rule.deps, s.width);
        proof {
            let p = opt_var_spec("deps"@, rule@.deps, w);
            assert(s.buffer@ =~= self.buffer@ + (acc + p));
            acc = acc + p;
            assert(acc == rule_spec(rule@, w));
        }
        s
    }
}

impl Writer {
    /// Appends a build edge: its wrapped header line, its optional pool and
    /// dyndep bindings, and its edge-scoped variables.
    pub fn build(self, build: &crate::entities::Build) -> (r: Writer)
        requires
            self.wf(),
        ensures
            r@ == self@ + build_spec(build@, self.wrap_width()),
            r.path_spec() == self.path_spec(),
            r.wrap_width() == self.wrap_width(),
    {
        let mut s = self;
        let ghost w = s.width as int;
        let ghost bv = build@;
        let mut outs: Vec<Vec<char>> = Vec::new();
        push_escaped_list(&mut outs, &build.outputs);
        if build.implicit_outputs.len() > 0 {
            push_bar(&mut outs);
            push_escaped_list(&mut outs, &build.implicit_outputs);
        }
        proof {
            assert(outs.deep_view() =~~= out_tokens(bv));
        }
        let mut ins: Vec<Vec<char>> = Vec::new();
        let rule_tok = crate::text::str_to_chars(build.rule.as_str());
        ins.push(rule_tok);
        proof {
            assert(ins.deep_view() =~~= seq![bv.rule]);
        }
        push_escaped_list(&mut ins, &build.inputs);
        if build.implicit.len() > 0 {
            push_bar(&mut ins);
            push_escaped_list(&mut ins, &build.implicit);
        }
        if build.order_only.len() > 0 {
            push_bar_bar(&mut ins);
            push_escaped_list(&mut ins, &build.order_only);
        }
        proof {
            assert(ins.deep_view() =~~= in_tokens(bv));
        }
        let mut line: Vec<char> = Vec::new();
        push_str_chars(&mut line, "build ");
        append_join(&mut line, &outs);
        push_str_chars(&mut line, ": ");
        append_join(&mut line, &ins);
        proof {
            assert(line@ =~= build_line(bv));
        }
        append_wrapped(&mut s.buffer, &line, 0, s.width);
        let ghost mut acc = wrap_spec(build_line(bv), 0, w);
        append_opt_var(&mut s.buffer, "pool", &build.pool, s.width);
        proof {
            let p = opt_var_spec("pool"@, bv.pool, w);
            assert(s.buffer@ =~= self.buffer@ + (acc + p));
            acc = acc + p;
        }
        append_opt_var(&mut s.buffer, "dyndep", &build.dyndep, s.width);
        proof {
            let p = opt_var_spec("dyndep"@, bv.dyndep, w);
            assert(s.buffer@ =~= self.buffer@ + (acc + p));
            acc = acc + p;
        }
        let ghost base = s.buffer@;
        let n = build.variables.len();
        let mut i: usize = 0;
        while i < n
            invariant
                i <= n,
                n == build.variables@.len(),
                bv == build@,
                s.width == 78,
                s.width == self.width,
                s.file_path == self.file_path,
                w == 78,
                s.buffer@ + edge_vars_spec(bv.variables, i as int, w) == base + edge_vars_spec(
                    bv.variables,
                    0,
                    w,
                ),
            decreases n - i,
        {
            let ghost pre = s.buffer@;
            let kv = &build.variables[i];
            append_variable(&mut s.buffer, kv.0.as_str(), kv.1.as_str(), 1, s.width);
            proof {
                assert(bv.variables[i as int] == build.variables@[i as int].deep_view());
                assert(bv.variables[i as int].0 == kv.0@ && bv.variables[i as int].1 == kv.1@);
                assert(edge_vars_spec(bv.variables, i as int, w) == variable_spec(
                    kv.0@,
                    kv.1@,
                    1,
                    w,
                ) + edge_vars_spec(bv.variables, i + 1, w));
                assert(s.buffer@ + edge_vars_spec(bv.variables, i + 1, w) =~= pre + edge_vars_spec(
                    bv.variables,
                    i as int,
                    w,
                ));
            }
            i = i + 1;
        }
        proof {
            assert(edge_vars_spec(bv.variables, n as int, w) == Seq::<char>::empty());
            assert(s.buffer@ =~= base + edge_vars_spec(bv.variables, 0, w));
            assert(s.buffer@ =~= self.buffer@ + (acc + edge_vars_spec(bv.variables, 0, w)));
            assert(s.buffer@ =~= self.buffer@ + build_spec(bv, w));
        }
        s
    }
}

impl Writer {
    /// Emits each build edge of a collection, in order, optionally followed
    /// by a blank line each.
    pub fn write_builds(self, builds: &[crate::entities::Build], add_newlines: bool) -> (r: Writer)
        requires
            self.wf(),
        ensures
            r@ == self@ + builds_spec(builds.deep_view(), 0, add_newlines, self.wrap_width()),
            r.path_spec() == self.path_spec(),
            r.wrap_width() == self.wrap_width(),
    {
        let mut s = self;
        let ghost w = self.wrap_width();
        let ghost bs = builds.deep_view();
        let n = builds.len();
        let mut i: usize = 0;
        while i < n
            invariant
                i <= n,
                n == builds@.len(),
                bs == builds.deep_view(),
                s.wf(),
                s.wrap_width() == w,
                w == self.wrap_width(),
                s.path_spec() == self.path_spec(),
                s@ + builds_spec(bs, i as int, add_newlines, w) == self@ + builds_spec(
                    bs,
                    0,
                    add_newlines,
                    w,
                ),
            decreases n - i,
        {
            let ghost pre = s@;
            s = s.build(&builds[i]);
            if add_newlines {
                s = s.newline();
            }
            proof {
                assert(bs[i as int] == builds@[i as int]@);
                assert(s@ + builds_spec(bs, i + 1, add_newlines, w) =~= pre + builds_spec(
                    bs,
                    i as int,
                    add_newlines,
                    w,
                ));
            }
            i = i + 1;
        }
        s
    }

    /// Emits each rule of a collection, in order, optionally followed by a
    /// blank line each.
    pub fn write_rules(self, rules: &[crate::entities::Rule], add_newlines: bool) -> (r: Writer)
        requires
            self.wf(),
        ensures
            r@ == self@ + rules_spec(rules.deep_view(), 0, add_newlines, self.wrap_width()),
            r.path_spec() == self.path_spec(),
            r.wrap_width() == self.wrap_width(),
    {
        let mut s = self;
        let ghost w = self.wrap_width();
        let ghost rs = rules.deep_view();
        let n = rules.len();
        let mut i: usize = 0;
        while i < n
            invariant
                i <= n,
                n == rules@.len(),
                rs == rules.deep_view(),
                s.wf(),
                s.wrap_width() == w,
                w == self.wrap_width(),
                s.path_spec() == self.path_spec(),
                s@ + rules_spec(rs, i as int, add_newlines, w) == self@ + rules_spec(
                    rs,
                    0,
                    add_newlines,
                    w,
                ),
            decreases n - i,
        {
            let ghost pre = s@;
            s = s.rule(&rules[i]);
            if add_newlines {
                s = s.newline();
            }
            proof {
                assert(rs[i as int] == rules@[i as int]@);
                assert(s@ + rules_spec(rs, i + 1, add_newlines, w) =~= pre + rules_spec(
                    rs,
                    i as int,
                    add_newlines,
                    w,
                ));
            }
            i = i + 1;
        }
        s
    }

    /// Emits each variable binding of a collection at indent level zero, in
    /// order, optionally followed by a blank line each.
    pub fn write_variables(
        self,
        variables: &[crate::entities::Variable],
        add_newlines: bool,
    ) -> (r: Writer)
        requires
            self.wf(),
        ensures
            r@ == self@ + bindings_spec(variables.deep_view(), 0, add_newlines, self.wrap_width()),
            r.path_spec() == self.path_spec(),
            r.wrap_width() == self.wrap_width(),
    {
        let mut s = self;
        let ghost w = self.wrap_width();
        let ghost vs = variables.deep_view();
        let n = variables.len();
        let mut i: usize = 0;
        while i < n
            invariant
                i <= n,
                n == variables@.len(),
                vs == variables.deep_view(),
                s.wf(),
                s.wrap_width() == w,
                w == self.wrap_width(),
                s.path_spec() == self.path_spec(),
                s@ + bindings_spec(vs, i as int, add_newlines, w) == self@ + bindings_spec(
                    vs,
                    0,
                    add_newlines,
                    w,
                ),
            decreases n - i,
        {
            let ghost pre = s@;
            let v = &variables[i];
            s = s.variable(v.name.as_str(), v.value.as_str(), 0);
            if add_newlines {
                s = s.newline();
            }
            proof {
                assert(vs[i as int] == variables@[i as int]@);
                assert(s@ + bindings_spec(vs, i + 1, add_newlines, w) =~= pre + bindings_spec(
                    vs,
                    i as int,
                    add_newlines,
                    w,
                ));
            }
            i = i + 1;
        }
        s
    }
}

/// The buffer after emitting each build edge from index `k` on
/// individually, each emission followed by one blank-line emission.
pub open spec fn repeated_builds(
    buf: Seq<char>,
    bs: Seq<crate::entities::BuildV>,
    k: int,
    width: int,
) -> Seq<char>
    decreases bs.len() - k,
{
    if k < 0 || k >= bs.len() {
        buf
    } else {
        repeated_builds(buf + build_spec(bs[k], width) + seq!['\n'], bs, k + 1, width)
    }
}

/// Bulk emission of build edges with inter-item blank lines appends exactly
/// what emitting each edge individually, each followed by one blank-line
/// emission, appends — in the same order, starting from any buffer.
pub proof fn lemma_write_builds_is_repeated(
    buf: Seq<char>,
    bs: Seq<crate::entities::BuildV>,
    k: int,
    width: int,
)
    requires
        0 <= k <= bs.len(),
    ensures
        buf + builds_spec(bs, k, true, width) == repeated_builds(buf, bs, k, width),
    decreases bs.len() - k,
{
    if k < bs.len() {
        let step = buf + build_spec(bs[k], width) + seq!['\n'];
        lemma_write_builds_is_repeated(step, bs, k + 1, width);
        assert(step + builds_spec(bs, k + 1, true, width) =~= buf + builds_spec(
            bs,
            k,
            true,
            width,
        ));
    } else {
        assert(buf + builds_spec(bs, k, true, width) =~= buf);
    }
}

/// The buffer after emitting each rule from index `k` on individually, each
/// emission followed by one blank-line emission.
pub open spec fn repeated_rules(
    buf: Seq<char>,
    rs: Seq<crate::entities::RuleV>,
    k: int,
    width: int,
) -> Seq<char>
    decreases rs.len() - k,
{
    if k < 0 || k >= rs.len() {
        buf
    } else {
        repeated_rules(buf + rule_spec(rs[k], width) + seq!['\n'], rs, k + 1, width)
    }
}

/// Bulk emission of rules with inter-item blank lines appends exactly what
/// emitting each rule individually, each followed by one blank-line
/// emission, appends — in the same order, starting from any buffer.
pub proof fn lemma_write_rules_is_repeated(
    buf: Seq<char>,
    rs: Seq<crate::entities::RuleV>,
    k: int,
    width: int,
)
    requires
        0 <= k <= rs.len(),
    ensures
        buf + rules_spec(rs, k, true, width) == repeated_rules(buf, rs, k, width),
    decreases rs.len() - k,
{
    if k < rs.len() {
        let step = buf + rule_spec(rs[k], width) + seq!['\n'];
        lemma_write_rules_is_repeated(step, rs, k + 1, width);
        assert(step + rules_spec(rs, k + 1, true, width) =~= buf + rules_spec(rs, k, true, width));
    } else {
        assert(buf + rules_spec(rs, k, true, width) =~= buf);
    }
}

/// The buffer after emitting each variable binding from index `k` on
/// individually at indent level zero, each emission followed by one
/// blank-line emission.
pub open spec fn repeated_bindings(
    buf: Seq<char>,
    vs: Seq<crate::entities::VariableV>,
    k: int,
    width: int,
) -> Seq<char>
    decreases vs.len() - k,
{
    if k < 0 || k >= vs.len() {
        buf
    } else {
        repeated_bindings(
            buf + variable_spec(vs[k].name, vs[k].value, 0, width) + seq!['\n'],
            vs,
            k + 1,
            width,
        )
    }
}

/// Bulk emission of variable bindings with inter-item blank lines appends
/// exactly what emitting each binding individually, each followed by one
/// blank-line emission, appends — in the same order, starting from any
/// buffer.
pub proof fn lemma_write_variables_is_repeated(
    buf: Seq<char>,
    vs: Seq<crate::entities::VariableV>,
    k: int,
    width: int,
)
    requires
        0 <= k <= vs.len(),
    ensures
        buf + bindings_spec(vs, k, true, width) == repeated_bindings(buf, vs, k, width),
    decreases vs.len() - k,
{
    if k < vs.len() {
        let step = buf + variable_spec(vs[k].name, vs[k].value, 0, width) + seq!['\n'];
        lemma_write_variables_is_repeated(step, vs, k + 1, width);
        assert(step + bindings_spec(vs, k + 1, true, width) =~= buf + bindings_spec(
            vs,
            k,
            true,
            width,
        ));
    } else {
        assert(buf + bindings_spec(vs, k, true, width) =~= buf);
    }
}

/// Pushes a lone `|` separator token.
fn push_bar(toks: &mut Vec<Vec<char>>)
    ensures
        final(toks).deep_view() == old(toks).deep_view() + seq![seq!['|']],
{
    let mut bar: Vec<char> = Vec::new();
    bar.push('|');
    let ghost pred = toks.deep_view();
    toks.push(bar);
    proof {
        assert(toks.deep_view() =~~= pred + seq![seq!['|']]);
    }
}

/// Pushes a lone `||` separator token.
fn push_bar_bar(toks: &mut Vec<Vec<char>>)
    ensures
        final(toks).deep_view() == old(toks).deep_view() + seq![seq!['|', '|']],
{
    let mut bar: Vec<char> = Vec::new();
    bar.push('|');
    bar.push('|');
    let ghost pred = toks.deep_view();
    toks.push(bar);
    proof {
        assert(toks.deep_view() =~~= pred + seq![seq!['|', '|']]);
    }
}

/// Escapes each item and pushes it as one token.
fn push_escaped_list(toks: &mut Vec<Vec<char>>, items: &Vec<String>)
    ensures
        final(toks).deep_view() == old(toks).deep_view() + crate::escape::escape_all(
            items.deep_view(),
        ),
{
    let n = items.len();
    let mut i: usize = 0;
    while i < n
        invariant
            i <= n,
            n == items@.len(),
            toks.deep_view() == old(toks).deep_view() + crate::escape::escape_all(
                items.deep_view().take(i as int),
            ),
        decreases n - i,
    {
        let ghost pred = toks.deep_view();
        let e = crate::escape::escape_chars(items[i].as_str());
        toks.push(e);
        i = i + 1;
        proof {
            assert(toks.deep_view() =~~= pred + seq![
                crate::escape::escape_spec(items@[i - 1]@),
            ]);
            assert(pred + seq![crate::escape::escape_spec(items@[i - 1]@)] =~~= old(
                toks,
            ).deep_view() + crate::escape::escape_all(items.deep_view().take(i as int)));
        }
    }
    proof {
        assert(items.deep_view().take(n as int) =~= items.deep_view());
    }
}

/// Appends the tokens joined with single spaces.
fn append_join(line: &mut Vec<char>, toks: &Vec<Vec<char>>)
    ensures
        final(line)@ == old(line)@ + join_tokens(toks.deep_view()),
{
    let ghost tv = toks.deep_view();
    let n = toks.len();
    let mut k: usize = 0;
    while k < n
        invariant
            k <= n,
            n == toks@.len(),
            tv == toks.deep_view(),
            line@ + join_from(tv, k as int) == old(line)@ + join_tokens(tv),
        decreases n - k,
    {
        let ghost pre = line@;
        line.extend_from_slice(toks[k].as_slice());
        proof {
            assert(tv[k as int] =~= toks@[k as int]@);
            assert(line@ =~= pre + tv[k as int]);
        }
        if k + 1 < n {
            line.push(' ');
            proof {
                assert(line@ =~= pre + (tv[k as int] + seq![' ']));
                assert(line@ + join_from(tv, k + 1) =~= pre + join_from(tv, k as int));
            }
        } else {
            proof {
                assert(line@ + join_from(tv, k + 1) =~= pre + join_from(tv, k as int));
            }
        }
        k = k + 1;
    }
}

/// Appends an optional nested binding: nothing when absent or empty.
fn append_opt_var(buf: &mut Vec<char>, key: &str, o: &Option<String>, width: usize)
    requires
        2 <= width,
        width + 2 <= usize::MAX,
    ensures
        final(buf)@ == old(buf)@ + opt_var_spec(key@, crate::entities::opt_view(*o), width as int),
{
    match o {
        Option::Some(v) => {
            if !v.as_str().is_empty() {
                append_variable(buf, key, v.as_str(), 1, width);
            }
        },
        Option::None => {},
    }
}

/// Appends a boolean nested binding: `1` when set, nothing otherwise.
fn append_flag_var(buf: &mut Vec<char>, key: &str, b: bool, width: usize)
    requires
        2 <= width,
        width + 2 <= usize::MAX,
    ensures
        final(buf)@ == old(buf)@ + flag_var_spec(key@, b, width as int),
{
    if b {
        append_variable(buf, key, "1", 1, width);
    }
}

/// Appends a wrapped `key = value` binding to the buffer.
fn append_variable(buf: &mut Vec<char>, key: &str, value: &str, indent: usize, width: usize)
    requires
        2 * indent <= width,
        width + 2 <= usize::MAX,
    ensures
        final(buf)@ == old(buf)@ + variable_spec(key@, value@, indent as int, width as int),
{
    let mut line: Vec<char> = Vec::new();
    push_str_chars(&mut line, key);
    push_str_chars(&mut line, " = ");
    push_str_chars(&mut line, value);
    proof {
        assert(line@ =~= key@ + " = "@ + value@);
    }
    append_wrapped(buf, &line, indent, width);
}

} // verus!
