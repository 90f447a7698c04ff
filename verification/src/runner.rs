//! The chain runner: a state machine that runs a shortcut's steps in
//! declared order over one exclusively owned variable context.
//!
//! The runner itself never spawns a process. The caller asks for the next
//! rendered command with [`Runner::next_command`], performs it through the
//! outside execution capability, and hands the captured result back with
//! [`Runner::record_step`]. A nonzero exit status fails the chain at that
//! step and stops it: no remaining step is ever pending again, and no
//! retry is attempted. Each step's result is recorded unconditionally,
//! success or failure, before the chain advances.

use vstd::prelude::*;

use crate::commands::CommandOutput;
use crate::commands::CommandOutputView;
use crate::render::lemma_render_recorded_output;
use crate::render::lemma_render_unknown_key_verbatim;
use crate::render::plain_key;
use crate::render::spec_render;
use crate::shortcut::Shortcut;
use crate::shortcut::Variables;
use crate::strutil::normalize;

verus! {

/// The chain-level failure signal: the failing step's name and its exit
/// status.
#[derive(Debug, Clone, PartialEq, Eq)]
pub struct ChainFailure {
    pub step_name: String,
    pub exit_status: i32,
}

/// Where a chain run stands.
#[derive(Debug, Clone, Copy, PartialEq, Eq, Structural)]
pub enum ChainState {
    NotStarted,
    Running { index: usize },
    Completed,
    Failed { index: usize, status: i32 },
}

/// One run of a shortcut: its definition, its variable context and the
/// state of the chain.
#[derive(Debug)]
pub struct Runner {
    pub shortcut: Shortcut,
    pub vars: Variables,
    pub state: ChainState,
}

impl Runner {
    /// The keys under which the steps before `i` record their results.
    pub open spec fn recorded_names(&self, i: int) -> Set<Seq<char>> {
        Set::new(
            |k: Seq<char>|
                exists|j: int|
                    0 <= j < i && normalize(#[trigger] self.shortcut.commands@[j].name@) == k,
        )
    }

    /// The index of the step whose command runs next, while the chain is
    /// still going.
    pub open spec fn pending(&self) -> Option<int> {
        match self.state {
            ChainState::Running { index } => Some(index as int),
            _ => None,
        }
    }

    /// The runner invariant: a validated definition, a well-formed
    /// context, a running index inside the chain, and results recorded
    /// only for steps that already completed.
    pub open spec fn inv(&self) -> bool {
        &&& self.shortcut.wf()
        &&& self.vars.wf()
        &&& match self.state {
            ChainState::NotStarted => self.vars.commands@ == Map::<
                Seq<char>,
                CommandOutputView,
            >::empty(),
            ChainState::Running { index } => index < self.shortcut.commands@.len()
                && self.vars.commands@.dom() <= self.recorded_names(index as int),
            ChainState::Completed => self.vars.commands@.dom() <= self.recorded_names(
                self.shortcut.commands@.len() as int,
            ),
            ChainState::Failed { index, status } => index < self.shortcut.commands@.len()
                && self.vars.commands@.dom() <= self.recorded_names(index + 1),
        }
    }

    /// Readies a runner over a validated definition and a fresh context
    /// with no recorded results.
    pub fn new(shortcut: Shortcut, vars: Variables) -> (r: Runner)
        requires
            shortcut.wf(),
            vars.wf(),
            vars.commands@ == Map::<Seq<char>, CommandOutputView>::empty(),
        ensures
            r.inv(),
            r.state == ChainState::NotStarted,
            r.shortcut == shortcut,
            r.vars == vars,
    {
        Runner { shortcut, vars, state: ChainState::NotStarted }
    }

    /// Starts the chain at its first step.
    pub fn start(&mut self)
        requires
            old(self).inv(),
            old(self).state == ChainState::NotStarted,
        ensures
            final(self).inv(),
            final(self).state == (ChainState::Running { index: 0 }),
            final(self).shortcut == old(self).shortcut,
            final(self).vars == old(self).vars,
    {
        self.state = ChainState::Running { index: 0 };
    }

    /// The next command to run: the pending step's template rendered
    /// against the current context, or `None` when the chain has
    /// completed, failed, or not started.
    pub fn next_command(&self) -> (r: Option<String>)
        requires
            self.inv(),
        ensures
            match self.pending() {
                Some(i) => r is Some && r->0@ == spec_render(
                    self.shortcut.commands@[i].command@,
                    self.vars.snapshot(),
                ),
                None => r is None,
            },
    {
        match self.state {
            ChainState::Running { index } => {
                Some(self.vars.render_command(self.shortcut.commands[index].command.as_str()))
            },
            _ => None,
        }
    }

    /// Records the pending step's captured result under that step's name,
    /// unconditionally, and advances the chain: a nonzero status fails
    /// the chain at this step; a zero status makes the next step pending,
    /// or completes the chain after the last step.
    pub fn record_step(&mut self, output: String, status: i32)
        requires
            old(self).inv(),
            old(self).pending() is Some,
        ensures
            final(self).inv(),
            final(self).shortcut == old(self).shortcut,
            ({
                let i = old(self).pending()->0;
                let name = old(self).shortcut.commands@[i].name@;
                &&& final(self).vars.commands@ == old(self).vars.commands@.insert(
                    normalize(name),
                    (CommandOutputView { output: output@, status: status as int }),
                )
                &&& final(self).vars.args == old(self).vars.args
                &&& final(self).vars.variables == old(self).vars.variables
                &&& final(self).vars.env == old(self).vars.env
                &&& final(self).state == (if status != 0 {
                    ChainState::Failed { index: i as usize, status }
                } else if i + 1 == old(self).shortcut.commands@.len() {
                    ChainState::Completed
                } else {
                    ChainState::Running { index: (i + 1) as usize }
                })
            }),
    {
        let index: usize;
        match self.state {
            ChainState::Running { index: ix } => {
                index = ix;
            },
            _ => {
                proof {
                    assert(false);
                }
                index = 0;
            },
        }
        let name = self.shortcut.commands[index].name.clone();
        self.vars.add_command(name, CommandOutput { output, status });
        let n = self.shortcut.commands.len();
        if status != 0 {
            self.state = ChainState::Failed { index, status };
        } else if index + 1 == n {
            self.state = ChainState::Completed;
        } else {
            self.state = ChainState::Running { index: index + 1 };
        }
        proof {
            let i = index as int;
            assert forall|k: Seq<char>| self.vars.commands@.dom().contains(k) implies self
                .recorded_names(i + 1)
                .contains(k) by {
                if k == normalize(old(self).shortcut.commands@[i].name@) {
                    assert(normalize(self.shortcut.commands@[i].name@) == k);
                } else {
                    let j = choose|j: int|
                        0 <= j < i && normalize(
                            #[trigger] old(self).shortcut.commands@[j].name@,
                        ) == k;
                    assert(normalize(self.shortcut.commands@[j].name@) == k);
                }
            }
        }
    }

    /// The failure signal after a failed chain: the failing step's name
    /// and its exit status.
    pub fn failure(&self) -> (r: Option<ChainFailure>)
        requires
            self.inv(),
        ensures
            match self.state {
                ChainState::Failed { index, status } => r is Some && r->0.step_name@
                    == self.shortcut.commands@[index as int].name@ && r->0.exit_status == status,
                _ => r is None,
            },
    {
        match self.state {
            ChainState::Failed { index, status } => {
                Some(
                    ChainFailure {
                        step_name: self.shortcut.commands[index].name.clone(),
                        exit_status: status,
                    },
                )
            },
            _ => None,
        }
    }
}

/// Law (fail-fast): once a chain has failed, no step is pending, so no
/// further command is ever rendered or handed out, and no result can be
/// recorded; with [`Runner::record_step`]'s contract, a step returning a
/// nonzero exit status therefore keeps every later step from running.
pub proof fn lemma_fail_fast(r: &Runner)
    requires
        r.state is Failed,
    ensures
        r.pending() is None,
{
}

/// Law (ordering): whenever an earlier step's result stands recorded
/// under `key`, a step whose template holds `{{ commands.<key>.output }}`
/// between plain text renders to that text with exactly the recorded
/// output in the placeholder's place, whatever else the context holds; a
/// chain where each step references its predecessor's output therefore
/// passes that output along verbatim.
pub proof fn lemma_step_sees_prior_output(
    r: &Runner,
    prefix: Seq<char>,
    key: Seq<char>,
    tail: Seq<char>,
)
    requires
        r.inv(),
        plain_key(key),
        r.vars.commands@.contains_key(key),
        forall|i: int| 0 <= i < prefix.len() ==> prefix[i] != '{',
        forall|i: int| 0 <= i < tail.len() ==> tail[i] != '{',
    ensures
        spec_render(prefix + "{{ commands."@ + key + ".output }}"@ + tail, r.vars.snapshot())
            == prefix + r.vars.commands@[key].output + tail,
{
    lemma_render_recorded_output(prefix, key, tail, r.vars.snapshot());
}

/// Law (namespace isolation): while a step is pending and no earlier step
/// shares its normalized name, its own key is absent from the
/// command-result namespace, so the step's template cannot see the step's
/// own result, only those of earlier steps.
pub proof fn lemma_namespace_isolation(r: &Runner)
    requires
        r.inv(),
        r.pending() is Some,
        forall|j: int|
            0 <= j < r.pending()->0 ==> normalize(#[trigger] r.shortcut.commands@[j].name@)
                != normalize(r.shortcut.commands@[r.pending()->0].name@),
    ensures
        !r.vars.commands@.dom().contains(normalize(r.shortcut.commands@[r.pending()->0].name@)),
{
    let i = r.pending()->0;
    let k = normalize(r.shortcut.commands@[i].name@);
    if r.vars.commands@.dom().contains(k) {
        let j = choose|j: int|
            0 <= j < i && normalize(#[trigger] r.shortcut.commands@[j].name@) == k;
        assert(false);
    }
}

/// Law (namespace isolation, rendering form): a pending step whose
/// template references the step's own recorded output renders fail-open,
/// to the template's own literal text — the step cannot observe a result
/// that is only recorded after it ran.
pub proof fn lemma_own_reference_renders_verbatim(r: &Runner, prefix: Seq<char>, tail: Seq<char>)
    requires
        r.inv(),
        r.pending() is Some,
        forall|j: int|
            0 <= j < r.pending()->0 ==> normalize(#[trigger] r.shortcut.commands@[j].name@)
                != normalize(r.shortcut.commands@[r.pending()->0].name@),
        plain_key(normalize(r.shortcut.commands@[r.pending()->0].name@)),
        forall|i: int| 0 <= i < prefix.len() ==> prefix[i] != '{',
    ensures
        ({
            let own = normalize(r.shortcut.commands@[r.pending()->0].name@);
            spec_render(
                prefix + "{{ commands."@ + own + ".output }}"@ + tail,
                r.vars.snapshot(),
            ) == prefix + "{{ commands."@ + own + ".output }}"@ + tail
        }),
{
    let own = normalize(r.shortcut.commands@[r.pending()->0].name@);
    lemma_namespace_isolation(r);
    lemma_render_unknown_key_verbatim(prefix, own, tail, r.vars.snapshot());
}

} // verus!
