//! The declarative definition model of a shortcut and the variable context
//! of one invocation.
//!
//! A [`Shortcut`] is pure parsed data: a name, optional description,
//! declared arguments, environment names to import, static variables and a
//! non-empty ordered sequence of command steps. A [`Variables`] value is
//! the mutable context of one run: it accumulates argument, static,
//! environment and command-result bindings and hands them to the template
//! renderer.

use vstd::prelude::*;

use crate::bindings::Bindings;
use crate::commands::CommandOutput;
use crate::commands::CommandOutputView;
use crate::render::render_template;
use crate::render::spec_render;
use crate::render::Snapshot;
use crate::strutil::normalize;
use crate::strutil::normalize_name;
use crate::strutil::str_eq;

verus! {

/// Whether a declared argument is a boolean flag or carries a data value.
#[derive(Debug, Clone, PartialEq, Eq, Structural)]
pub enum ArgumentType {
    Flag,
    Data,
}

/// One declared argument of a shortcut.
#[derive(Debug, Clone, PartialEq, Eq)]
pub struct Argument {
    pub arg_type: ArgumentType,
    pub name: String,
    pub default: Option<String>,
    pub help: Option<String>,
}

/// One step of a shortcut: a named, optionally described command template.
#[derive(Debug, Clone, PartialEq, Eq)]
pub struct Command {
    pub name: String,
    pub description: Option<String>,
    pub command: String,
}

/// A parsed shortcut definition. Loaders must check [`Shortcut::validate`]
/// before running one.
#[derive(Debug)]
pub struct Shortcut {
    pub name: String,
    pub description: Option<String>,
    pub args: Option<Vec<Argument>>,
    pub env: Option<Vec<String>>,
    pub variables: Option<Bindings<String>>,
    pub commands: Vec<Command>,
}

/// Whether some argument in the sequence was declared under name `k`.
pub open spec fn arg_named_in(s: Seq<Argument>, k: Seq<char>) -> bool {
    exists|i: int| 0 <= i < s.len() && s[i].name@ == k
}

/// Whether `k` occurs in the sequence of declared environment names.
pub open spec fn env_named_in(s: Seq<String>, k: Seq<char>) -> bool {
    exists|i: int| 0 <= i < s.len() && s[i]@ == k
}

impl Shortcut {
    /// Whether an argument was declared under name `k`.
    pub open spec fn spec_has_arg(&self, k: Seq<char>) -> bool {
        match self.args {
            Some(v) => arg_named_in(v@, k),
            None => false,
        }
    }

    /// Whether the definition asks for environment name `k`.
    pub open spec fn spec_declares_env(&self, k: Seq<char>) -> bool {
        match self.env {
            Some(v) => env_named_in(v@, k),
            None => false,
        }
    }

    /// The static key/value variables of the definition.
    pub open spec fn spec_static_vars(&self) -> Map<Seq<char>, Seq<char>> {
        match self.variables {
            Some(m) => m@,
            None => Map::empty(),
        }
    }

    /// The validation invariants a loader must establish: at least one
    /// step, a non-empty name, pairwise-distinct argument names, and a
    /// well-formed static-variable map.
    pub open spec fn wf(&self) -> bool {
        &&& self.commands@.len() > 0
        &&& self.name@.len() > 0
        &&& match self.args {
            Some(v) => forall|i: int, j: int|
                0 <= i < j < v@.len() ==> v@[i].name@ != v@[j].name@,
            None => true,
        }
        &&& match self.variables {
            Some(m) => m.wf(),
            None => true,
        }
    }

    /// Decides [`Shortcut::wf`]: steps non-empty, name non-empty and
    /// argument names unique. Template contents are deliberately not
    /// inspected here; a malformed template is a rendering concern.
    pub fn validate(&self) -> (r: bool)
        requires
            match self.variables {
                Some(m) => m.wf(),
                None => true,
            },
        ensures
            r == self.wf(),
    {
        if self.commands.len() == 0 {
            return false;
        }
        if self.name.as_str().is_empty() {
            return false;
        }
        if let Some(list) = &self.args {
            let n = list.len();
            let mut i: usize = 0;
            while i < n
                invariant
                    self.args == Some(*list),
                    n == list@.len(),
                    i <= n,
                    forall|x: int, y: int|
                        0 <= x < y < n && x < i ==> list@[x].name@ != list@[y].name@,
                decreases n - i,
            {
                let mut j: usize = i + 1;
                while j < n
                    invariant
                        self.args == Some(*list),
                        n == list@.len(),
                        i < j <= n,
                        forall|y: int| i < y < j ==> list@[i as int].name@ != list@[y].name@,
                    decreases n - j,
                {
                    if str_eq(list[i].name.as_str(), list[j].name.as_str()) {
                        return false;
                    }
                    j = j + 1;
                }
                i = i + 1;
            }
        }
        true
    }
}

/// The variable context of one invocation: four namespaces of bindings,
/// exclusively owned by the runner of that invocation.
#[derive(Debug)]
pub struct Variables {
    pub args: Bindings<String>,
    pub variables: Bindings<String>,
    pub env: Bindings<String>,
    pub commands: Bindings<CommandOutput>,
}

impl Variables {
    /// All four namespaces obey the map invariant.
    pub open spec fn wf(&self) -> bool {
        &&& self.args.wf()
        &&& self.variables.wf()
        &&& self.env.wf()
        &&& self.commands.wf()
    }

    /// Seeds a context for one run of `shortcut`: the parsed argument
    /// values filtered to the declared argument names, the static
    /// variables copied verbatim, the environment snapshot filtered to the
    /// declared environment names (unset names are silently absent), and
    /// no command results yet.
    pub fn new(
        shortcut: &Shortcut,
        parsed_args: &Bindings<String>,
        env_snapshot: &Bindings<String>,
    ) -> (r: Variables)
        requires
            parsed_args.wf(),
            env_snapshot.wf(),
            match shortcut.variables {
                Some(m) => m.wf(),
                None => true,
            },
        ensures
            r.wf(),
            r.args@ == Map::new(
                |k: Seq<char>| shortcut.spec_has_arg(k) && parsed_args@.contains_key(k),
                |k: Seq<char>| parsed_args@[k],
            ),
            r.variables@ == shortcut.spec_static_vars(),
            r.env@ == Map::new(
                |k: Seq<char>| shortcut.spec_declares_env(k) && env_snapshot@.contains_key(k),
                |k: Seq<char>| env_snapshot@[k],
            ),
            r.commands@ == Map::<Seq<char>, CommandOutputView>::empty(),
    {
        let mut args: Bindings<String> = Bindings::new();
        if let Some(list) = &shortcut.args {
            let n = list.len();
            let mut i: usize = 0;
            while i < n
                invariant
                    shortcut.args == Some(*list),
                    n == list@.len(),
                    i <= n,
                    parsed_args.wf(),
                    args.wf(),
                    forall|k: Seq<char>|
                        args@.contains_key(k) <==> (arg_named_in(list@.subrange(0, i as int), k)
                            && parsed_args@.contains_key(k)),
                    forall|k: Seq<char>| args@.contains_key(k) ==> args@[k] == parsed_args@[k],
                decreases n - i,
            {
                let ghost prev = args@;
                if let Some(value) = parsed_args.get(list[i].name.as_str()) {
                    let v = value.clone();
                    args.insert(list[i].name.clone(), v);
                }
                proof {
                    let p = list@.subrange(0, i + 1);
                    let q = list@.subrange(0, i as int);
                    let nm = list@[i as int].name@;
                    assert(p[i as int].name@ == nm);
                    assert(forall|x: int| 0 <= x < i ==> p[x] == #[trigger] q[x]);
                    assert forall|k: Seq<char>|
                        args@.contains_key(k) <==> (arg_named_in(p, k)
                            && parsed_args@.contains_key(k)) by {
                        if args@.contains_key(k) {
                            if prev.contains_key(k) {
                                let x = choose|x: int| 0 <= x < q.len() && q[x].name@ == k;
                                assert(p[x].name@ == k);
                            } else {
                                assert(k == nm);
                            }
                        }
                        if arg_named_in(p, k) && parsed_args@.contains_key(k) {
                            let x = choose|x: int| 0 <= x < p.len() && p[x].name@ == k;
                            if x < i {
                                assert(q[x].name@ == k);
                                assert(prev.contains_key(k));
                            } else {
                                assert(k == nm);
                            }
                            assert(args@.contains_key(k));
                        }
                    }
                }
                i = i + 1;
            }
            proof {
                assert(list@.subrange(0, n as int) =~= list@);
                assert(args@ =~= Map::new(
                    |k: Seq<char>| shortcut.spec_has_arg(k) && parsed_args@.contains_key(k),
                    |k: Seq<char>| parsed_args@[k],
                ));
            }
        } else {
            proof {
                assert(args@ =~= Map::new(
                    |k: Seq<char>| shortcut.spec_has_arg(k) && parsed_args@.contains_key(k),
                    |k: Seq<char>| parsed_args@[k],
                ));
            }
        }

        let variables: Bindings<String> = match &shortcut.variables {
            Some(m) => m.duplicated(),
            None => Bindings::new(),
        };
        proof {
            assert(variables@ =~= shortcut.spec_static_vars());
        }

        let mut env: Bindings<String> = Bindings::new();
        if let Some(names) = &shortcut.env {
            let n = names.len();
            let mut i: usize = 0;
            while i < n
                invariant
                    shortcut.env == Some(*names),
                    n == names@.len(),
                    i <= n,
                    env_snapshot.wf(),
                    env.wf(),
                    forall|k: Seq<char>|
                        env@.contains_key(k) <==> (env_named_in(names@.subrange(0, i as int), k)
                            && env_snapshot@.contains_key(k)),
                    forall|k: Seq<char>| env@.contains_key(k) ==> env@[k] == env_snapshot@[k],
                decreases n - i,
            {
                let ghost prev = env@;
                if let Some(value) = env_snapshot.get(names[i].as_str()) {
                    let v = value.clone();
                    env.insert(names[i].clone(), v);
                }
                proof {
                    let p = names@.subrange(0, i + 1);
                    let q = names@.subrange(0, i as int);
                    let nm = names@[i as int]@;
                    assert(p[i as int]@ == nm);
                    assert(forall|x: int| 0 <= x < i ==> p[x] == #[trigger] q[x]);
                    assert forall|k: Seq<char>|
                        env@.contains_key(k) <==> (env_named_in(p, k)
                            && env_snapshot@.contains_key(k)) by {
                        if env@.contains_key(k) {
                            if prev.contains_key(k) {
                                let x = choose|x: int| 0 <= x < q.len() && q[x]@ == k;
                                assert(p[x]@ == k);
                            } else {
                                assert(k == nm);
                            }
                        }
                        if env_named_in(p, k) && env_snapshot@.contains_key(k) {
                            let x = choose|x: int| 0 <= x < p.len() && p[x]@ == k;
                            if x < i {
                                assert(q[x]@ == k);
                                assert(prev.contains_key(k));
                            } else {
                                assert(k == nm);
                            }
                            assert(env@.contains_key(k));
                        }
                    }
                }
                i = i + 1;
            }
            proof {
                assert(names@.subrange(0, n as int) =~= names@);
                assert(env@ =~= Map::new(
                    |k: Seq<char>| shortcut.spec_declares_env(k) && env_snapshot@.contains_key(k),
                    |k: Seq<char>| env_snapshot@[k],
                ));
            }
        } else {
            proof {
                assert(env@ =~= Map::new(
                    |k: Seq<char>| shortcut.spec_declares_env(k) && env_snapshot@.contains_key(k),
                    |k: Seq<char>| env_snapshot@[k],
                ));
            }
        }

        Variables { args, variables, env, commands: Bindings::new() }
    }

    /// Records one step's result under the normalized form of its name,
    /// overwriting any earlier result recorded under the same key.
    pub fn add_command(&mut self, command_name: String, command: CommandOutput)
        requires
            old(self).wf(),
        ensures
            final(self).wf(),
            final(self).commands@ == old(self).commands@.insert(
                normalize(command_name@),
                command@,
            ),
            final(self).args == old(self).args,
            final(self).variables == old(self).variables,
            final(self).env == old(self).env,
    {
        let key = normalize_name(command_name.as_str());
        self.commands.insert(key, command);
    }

    /// The read-only view handed to the renderer; it reflects every
    /// result recorded so far.
    pub open spec fn snapshot(&self) -> Snapshot {
        Snapshot {
            args: self.args@,
            vars: self.variables@,
            env: self.env@,
            commands: self.commands@,
        }
    }

    /// Renders a command template against the current context. See
    /// [`crate::render`] for the placeholder grammar and the fail-open
    /// policy.
    pub fn render_command(&self, command: &str) -> (r: String)
        requires
            self.wf(),
        ensures
            r@ == spec_render(command@, self.snapshot()),
    {
        render_template(command, &self.args, &self.variables, &self.env, &self.commands)
    }
}

/// Law: recording a result under a step name and then recording another
/// result under the same name leaves only the second; no history is kept.
pub proof fn lemma_add_command_overwrites(
    m: Map<Seq<char>, CommandOutputView>,
    name: Seq<char>,
    first: CommandOutputView,
    second: CommandOutputView,
)
    ensures
        m.insert(normalize(name), first).insert(normalize(name), second) == m.insert(
            normalize(name),
            second,
        ),
{
    assert(m.insert(normalize(name), first).insert(normalize(name), second) =~= m.insert(
        normalize(name),
        second,
    ));
}

} // verus!
