//! The passive entity values consumed by the emission engine: a rule
//! definition, a build edge and a top-level variable binding. They hold data
//! and are put together with fluent setters, each of which consumes the
//! value and returns the updated one.

use vstd::prelude::*;

verus! {

/// A named, reusable command template with optional metadata.
///
/// `name` and `command` are meant to be set before emission; an optional
/// field that holds an empty string is treated as absent and never emitted.
#[derive(Clone)]
pub struct Rule {
    pub name: String,
    pub command: String,
    pub description: Option<String>,
    pub depfile: Option<String>,
    pub generator: bool,
    pub pool: Option<String>,
    pub restat: bool,
    pub rspfile: Option<String>,
    pub rspfile_content: Option<String>,
    pub deps: Option<String>,
}

/// The mathematical shape of a rule: every text field as a character
/// sequence.
pub struct RuleV {
    pub name: Seq<char>,
    pub command: Seq<char>,
    pub description: Option<Seq<char>>,
    pub depfile: Option<Seq<char>>,
    pub generator: bool,
    pub pool: Option<Seq<char>>,
    pub restat: bool,
    pub rspfile: Option<Seq<char>>,
    pub rspfile_content: Option<Seq<char>>,
    pub deps: Option<Seq<char>>,
}

/// The character sequence held by an optional string.
pub open spec fn opt_view(o: Option<String>) -> Option<Seq<char>> {
    match o {
        Option::Some(s) => Option::Some(s@),
        Option::None => Option::None,
    }
}

impl View for Rule {
    type V = RuleV;

    open spec fn view(&self) -> RuleV {
        RuleV {
            name: self.name@,
            command: self.command@,
            description: opt_view(self.description),
            depfile: opt_view(self.depfile),
            generator: self.generator,
            pool: opt_view(self.pool),
            restat: self.restat,
            rspfile: opt_view(self.rspfile),
            rspfile_content: opt_view(self.rspfile_content),
            deps: opt_view(self.deps),
        }
    }
}

impl DeepView for Rule {
    type V = RuleV;

    open spec fn deep_view(&self) -> RuleV {
        self.view()
    }
}

impl Rule {
    /// A rule with the given name and command and no optional metadata.
    pub fn new(name: &str, command: &str) -> (r: Rule)
        ensures
            r@ == (RuleV {
                name: name@,
                command: command@,
                description: Option::None,
                depfile: Option::None,
                generator: false,
                pool: Option::None,
                restat: false,
                rspfile: Option::None,
                rspfile_content: Option::None,
                deps: Option::None,
            }),
    {
        Rule {
            name: name.to_owned(),
            command: command.to_owned(),
            description: Option::None,
            depfile: Option::None,
            generator: false,
            pool: Option::None,
            restat: false,
            rspfile: Option::None,
            rspfile_content: Option::None,
            deps: Option::None,
        }
    }

    pub fn name(self, val: &str) -> (r: Rule)
        ensures
            r@ == (RuleV { name: val@, ..self@ }),
    {
        let mut s = self;
        s.name = val.to_owned();
        s
    }

    pub fn command(self, val: &str) -> (r: Rule)
        ensures
            r@ == (RuleV { command: val@, ..self@ }),
    {
        let mut s = self;
        s.command = val.to_owned();
        s
    }

    pub fn description(self, val: &str) -> (r: Rule)
        ensures
            r@ == (RuleV { description: Option::Some(val@), ..self@ }),
    {
        let mut s = self;
        s.description = Option::Some(val.to_owned());
        s
    }

    pub fn depfile(self, val: &str) -> (r: Rule)
        ensures
            r@ == (RuleV { depfile: Option::Some(val@), ..self@ }),
    {
        let mut s = self;
        s.depfile = Option::Some(val.to_owned());
        s
    }

    pub fn generator(self, val: bool) -> (r: Rule)
        ensures
            r@ == (RuleV { generator: val, ..self@ }),
    {
        let mut s = self;
        s.generator = val;
        s
    }

    pub fn pool(self, val: &str) -> (r: Rule)
        ensures
            r@ == (RuleV { pool: Option::Some(val@), ..self@ }),
    {
        let mut s = self;
        s.pool = Option::Some(val.to_owned());
        s
    }

    pub fn restat(self, val: bool) -> (r: Rule)
        ensures
            r@ == (RuleV { restat: val, ..self@ }),
    {
        let mut s = self;
        s.restat = val;
        s
    }

    pub fn rspfile(self, val: &str) -> (r: Rule)
        ensures
            r@ == (RuleV { rspfile: Option::Some(val@), ..self@ }),
    {
        let mut s = self;
        s.rspfile = Option::Some(val.to_owned());
        s
    }

    pub fn rspfile_content(self, val: &str) -> (r: Rule)
        ensures
            r@ == (RuleV { rspfile_content: Option::Some(val@), ..self@ }),
    {
        let mut s = self;
        s.rspfile_content = Option::Some(val.to_owned());
        s
    }

    pub fn deps(self, val: &str) -> (r: Rule)
        ensures
            r@ == (RuleV { deps: Option::Some(val@), ..self@ }),
    {
        let mut s = self;
        s.deps = Option::Some(val.to_owned());
        s
    }
}

/// One production instance: named outputs produced from named inputs through
/// a rule. The rule is referenced by name; nothing checks that a matching
/// rule was emitted.
pub struct Build {
    pub outputs: Vec<String>,
    pub rule: String,
    pub inputs: Vec<String>,
    pub implicit: Vec<String>,
    pub order_only: Vec<String>,
    pub variables: Vec<(String, String)>,
    pub implicit_outputs: Vec<String>,
    pub pool: Option<String>,
    pub dyndep: Option<String>,
}

/// The mathematical shape of a build edge.
pub struct BuildV {
    pub outputs: Seq<Seq<char>>,
    pub rule: Seq<char>,
    pub inputs: Seq<Seq<char>>,
    pub implicit: Seq<Seq<char>>,
    pub order_only: Seq<Seq<char>>,
    pub variables: Seq<(Seq<char>, Seq<char>)>,
    pub implicit_outputs: Seq<Seq<char>>,
    pub pool: Option<Seq<char>>,
    pub dyndep: Option<Seq<char>>,
}

impl View for Build {
    type V = BuildV;

    open spec fn view(&self) -> BuildV {
        BuildV {
            outputs: self.outputs.deep_view(),
            rule: self.rule@,
            inputs: self.inputs.deep_view(),
            implicit: self.implicit.deep_view(),
            order_only: self.order_only.deep_view(),
            variables: self.variables.deep_view(),
            implicit_outputs: self.implicit_outputs.deep_view(),
            pool: opt_view(self.pool),
            dyndep: opt_view(self.dyndep),
        }
    }
}

impl DeepView for Build {
    type V = BuildV;

    open spec fn deep_view(&self) -> BuildV {
        self.view()
    }
}

/// The character sequences held by a slice of string slices, in order.
pub open spec fn strs_view(s: Seq<&str>) -> Seq<Seq<char>> {
    s.map_values(|t: &str| t@)
}

/// Copies a slice of string slices into owned strings.
pub(crate) fn to_vec_string(in_vec: &[&str]) -> (r: Vec<String>)
    ensures
        r.deep_view() == strs_view(in_vec@),
{
    let mut r: Vec<String> = Vec::new();
    let n = in_vec.len();
    let mut i: usize = 0;
    while i < n
        invariant
            i <= n,
            n == in_vec@.len(),
            r.deep_view() == strs_view(in_vec@.take(i as int)),
        decreases n - i,
    {
        let ghost prev = r@;
        let ghost pred = r.deep_view();
        let s = in_vec[i].to_owned();
        r.push(s);
        i = i + 1;
        proof {
            assert(pred.len() == i - 1);
            assert(prev.len() == i - 1);
            assert(r@ == prev.push(s));
            assert forall|k: int| 0 <= k < i implies r.deep_view()[k] == strs_view(
                in_vec@.take(i as int),
            )[k] by {
                assert(r.deep_view()[k] == r@[k].deep_view());
                assert(strs_view(in_vec@.take(i as int))[k] == in_vec@.take(i as int)[k]@);
                if k < i - 1 {
                    assert(r@[k] == prev[k]);
                    assert(pred[k] == prev[k].deep_view());
                    assert(pred[k] == strs_view(in_vec@.take(i - 1))[k]);
                } else {
                    assert(r@[k] == s);
                }
            }
            assert(r.deep_view() =~= strs_view(in_vec@.take(i as int)));
        }
    }
    proof {
        assert(in_vec@.take(n as int) =~= in_vec@);
    }
    r
}

impl Build {
    /// A build edge with the given outputs and rule name and nothing else.
    pub fn new(outputs: &[&str], rule: &str) -> (r: Build)
        ensures
            r@ == (BuildV {
                outputs: strs_view(outputs@),
                rule: rule@,
                inputs: Seq::empty(),
                implicit: Seq::empty(),
                order_only: Seq::empty(),
                variables: Seq::empty(),
                implicit_outputs: Seq::empty(),
                pool: Option::None,
                dyndep: Option::None,
            }),
    {
        let r = Build {
            outputs: to_vec_string(outputs),
            rule: rule.to_owned(),
            inputs: Vec::new(),
            implicit: Vec::new(),
            order_only: Vec::new(),
            variables: Vec::new(),
            implicit_outputs: Vec::new(),
            pool: Option::None,
            dyndep: Option::None,
        };
        proof {
            assert(r.inputs.deep_view() =~= Seq::<Seq<char>>::empty());
            assert(r.implicit.deep_view() =~= Seq::<Seq<char>>::empty());
            assert(r.order_only.deep_view() =~= Seq::<Seq<char>>::empty());
            assert(r.implicit_outputs.deep_view() =~= Seq::<Seq<char>>::empty());
            assert(r.variables.deep_view() =~= Seq::<(Seq<char>, Seq<char>)>::empty());
        }
        r
    }

    pub fn outputs(self, outputs: &[&str]) -> (r: Build)
        ensures
            r@ == (BuildV { outputs: strs_view(outputs@), ..self@ }),
    {
        let mut s = self;
        s.outputs = to_vec_string(outputs);
        s
    }

    pub fn rule(self, rule: &str) -> (r: Build)
        ensures
            r@ == (BuildV { rule: rule@, ..self@ }),
    {
        let mut s = self;
        s.rule = rule.to_owned();
        s
    }

    pub fn inputs(self, inputs: &[&str]) -> (r: Build)
        ensures
            r@ == (BuildV { inputs: strs_view(inputs@), ..self@ }),
    {
        let mut s = self;
        s.inputs = to_vec_string(inputs);
        s
    }

    pub fn implicit(self, implicit: &[&str]) -> (r: Build)
        ensures
            r@ == (BuildV { implicit: strs_view(implicit@), ..self@ }),
    {
        let mut s = self;
        s.implicit = to_vec_string(implicit);
        s
    }

    pub fn order_only(self, order_only: &[&str]) -> (r: Build)
        ensures
            r@ == (BuildV { order_only: strs_view(order_only@), ..self@ }),
    {
        let mut s = self;
        s.order_only = to_vec_string(order_only);
        s
    }

    /// Replaces the edge-scoped variable bindings. The given order is the
    /// order in which they are emitted.
    pub fn variables(self, variables: &[(&str, &str)]) -> (r: Build)
        ensures
            r@ == (BuildV { variables: variables.deep_view(), ..self@ }),
    {
        let mut vs: Vec<(String, String)> = Vec::new();
        let n = variables.len();
        let mut i: usize = 0;
        while i < n
            invariant
                i <= n,
                n == variables@.len(),
                vs.deep_view() == variables@.take(i as int).map_values(
                    |p: (&str, &str)| (p.0@, p.1@),
                ),
            decreases n - i,
        {
            let ghost prev = vs@;
            let ghost pred = vs.deep_view();
            let (k, v) = variables[i];
            let pair = (k.to_owned(), v.to_owned());
            vs.push(pair);
            i = i + 1;
            proof {
                let f = |p: (&str, &str)| (p.0@, p.1@);
                assert(pred.len() == i - 1);
                assert(prev.len() == i - 1);
                assert(vs@ == prev.push(pair));
                assert forall|m: int| 0 <= m < i implies vs.deep_view()[m] == variables@.take(
                    i as int,
                ).map_values(f)[m] by {
                    assert(vs.deep_view()[m] == vs@[m].deep_view());
                    assert(variables@.take(i as int).map_values(f)[m] == f(
                        variables@.take(i as int)[m],
                    ));
                    if m < i - 1 {
                        assert(vs@[m] == prev[m]);
                        assert(pred[m] == prev[m].deep_view());
                        assert(pred[m] == variables@.take(i - 1).map_values(f)[m]);
                    } else {
                        assert(vs@[m] == pair);
                        assert(pair.deep_view() == (pair.0@, pair.1@));
                    }
                }
                assert(vs.deep_view() =~= variables@.take(i as int).map_values(f));
            }
        }
        proof {
            assert(variables@.take(n as int) =~= variables@);
            assert(variables@.map_values(|p: (&str, &str)| (p.0@, p.1@)) =~~= variables.deep_view());
        }
        let mut s = self;
        s.variables = vs;
        s
    }

    pub fn implicit_outputs(self, implicit_outputs: &[&str]) -> (r: Build)
        ensures
            r@ == (BuildV { implicit_outputs: strs_view(implicit_outputs@), ..self@ }),
    {
        let mut s = self;
        s.implicit_outputs = to_vec_string(implicit_outputs);
        s
    }

    pub fn pool(self, pool: &str) -> (r: Build)
        ensures
            r@ == (BuildV { pool: Option::Some(pool@), ..self@ }),
    {
        let mut s = self;
        s.pool = Option::Some(pool.to_owned());
        s
    }

    pub fn dyndep(self, dyndep: &str) -> (r: Build)
        ensures
            r@ == (BuildV { dyndep: Option::Some(dyndep@), ..self@ }),
    {
        let mut s = self;
        s.dyndep = Option::Some(dyndep.to_owned());
        s
    }
}

/// A top-level variable binding with an indent level.
pub struct Variable {
    pub name: String,
    pub value: String,
    pub indent: usize,
}

/// The mathematical shape of a variable binding.
pub struct VariableV {
    pub name: Seq<char>,
    pub value: Seq<char>,
    pub indent: nat,
}

impl View for Variable {
    type V = VariableV;

    open spec fn view(&self) -> VariableV {
        VariableV { name: self.name@, value: self.value@, indent: self.indent as nat }
    }
}

impl DeepView for Variable {
    type V = VariableV;

    open spec fn deep_view(&self) -> VariableV {
        self.view()
    }
}

impl Variable {
    pub fn new(name: &str, value: &str, indent: usize) -> (r: Variable)
        ensures
            r.name@ == name@,
            r.value@ == value@,
            r.indent == indent,
    {
        Variable { name: name.to_owned(), value: value.to_owned(), indent }
    }
}

} // verus!
