//! The dispatcher. Each trigger (an element activated, a variable changed, the
//! session started) becomes a [`Dispatch`]: a state machine that walks the
//! trigger's action list one action at a time, threading the captured output
//! of the last command from one action to the next, and that ends by
//! re-evaluating the conditions of the elements that the changed variables
//! affect. Running a program is outside work: the machine asks for it with
//! [`Step::Spawn`] and is told what came of it with [`Dispatch::resume`].

use vstd::prelude::*;

use crate::condition::{check_condition, condition_holds, constraint_holds, is_negated};
use crate::conditionals::{lemma_mentioning, node_mentions, Conditionals};
use crate::config::{condition_of, node_condition, pairs_view, Action, Config, Node};
use crate::store::{keys_unique, lemma_lookup_stored, lookup, opt_view, stored, substituted, Vars};
use crate::text::{lines, split_lines, trim_newline, trim_one_newline, views};

verus! {

/// A trigger sent to the dispatcher.
#[derive(Debug)]
pub enum MsgHandler {
    /// The session has started: run the configuration's start actions.
    Initialize,
    /// The element at this position was activated.
    Action(usize),
    /// A variable was given a value by the user.
    Var { variable: String, value: String },
}

/// A command to the presentation surface.
#[derive(Debug, PartialEq, Eq)]
pub enum MsgGui {
    /// Show text in a container.
    Show { container: String, text: String },
    /// Offer choices, each a value and its label, for a variable.
    Options { container: String, variable: String, options: Vec<(String, String)> },
    /// Show the image at a path in a container.
    Image { container: String, filename: String },
    /// Enable or disable the element at a position.
    SetActive { node: usize, active: bool },
}

/// What a [`MsgGui`] says, over views.
pub enum MsgGuiView {
    Show { container: Seq<char>, text: Seq<char> },
    Options { container: Seq<char>, variable: Seq<char>, options: Seq<(Seq<char>, Seq<char>)> },
    Image { container: Seq<char>, filename: Seq<char> },
    SetActive { node: usize, active: bool },
}

impl View for MsgGui {
    type V = MsgGuiView;

    open spec fn view(&self) -> MsgGuiView {
        match self {
            MsgGui::Show { container, text } => MsgGuiView::Show {
                container: container@,
                text: text@,
            },
            MsgGui::Options { container, variable, options } => MsgGuiView::Options {
                container: container@,
                variable: variable@,
                options: pairs_view(options@),
            },
            MsgGui::Image { container, filename } => MsgGuiView::Image {
                container: container@,
                filename: filename@,
            },
            MsgGui::SetActive { node, active } => MsgGuiView::SetActive {
                node: *node,
                active: *active,
            },
        }
    }
}

/// The views of a list of commands.
pub open spec fn msgs_view(v: Seq<MsgGui>) -> Seq<MsgGuiView> {
    v.map_values(|m: MsgGui| m@)
}

/// Something that went wrong while running an action list; none of them stops
/// the dispatcher.
#[derive(Debug, PartialEq, Eq)]
pub enum Problem {
    /// A program could not be started; the rest of the list is skipped.
    SpawnFailed,
    /// A program ended with a failure status; the list goes on.
    ExitFailed,
    /// An action needed captured output and there was none; it did nothing.
    MissingOutput,
    /// An image was asked for through a variable that is not set.
    UnsetVariable { variable: String },
}

/// What a [`Problem`] says, over views.
pub enum ProblemView {
    SpawnFailed,
    ExitFailed,
    MissingOutput,
    UnsetVariable { variable: Seq<char> },
}

impl View for Problem {
    type V = ProblemView;

    open spec fn view(&self) -> ProblemView {
        match self {
            Problem::SpawnFailed => ProblemView::SpawnFailed,
            Problem::ExitFailed => ProblemView::ExitFailed,
            Problem::MissingOutput => ProblemView::MissingOutput,
            Problem::UnsetVariable { variable } => ProblemView::UnsetVariable {
                variable: variable@,
            },
        }
    }
}

/// The view of an optional problem.
pub open spec fn opt_problem(p: Option<Problem>) -> Option<ProblemView> {
    match p {
        Some(q) => Some(q@),
        None => None,
    }
}

/// What came of running a program.
#[derive(Debug)]
pub enum Outcome {
    /// The program could not be started.
    SpawnFailed,
    /// The program ran; whether it succeeded, and what it wrote to its output.
    Exited { success: bool, output: String },
}

/// What an [`Outcome`] says, over views.
pub enum OutcomeView {
    SpawnFailed,
    Exited { success: bool, output: Seq<char> },
}

impl View for Outcome {
    type V = OutcomeView;

    open spec fn view(&self) -> OutcomeView {
        match self {
            Outcome::SpawnFailed => OutcomeView::SpawnFailed,
            Outcome::Exited { success, output } => OutcomeView::Exited {
                success: *success,
                output: output@,
            },
        }
    }
}

/// What the dispatcher asks its driver to do next.
#[derive(Debug)]
pub enum Step {
    /// Run `program` with `args`, its input fed from `input` if there is one
    /// and the variables in `env` set in its environment, and hand what came
    /// of it to [`Dispatch::resume`].
    Spawn { program: String, args: Vec<String>, input: Option<String>, env: Vec<(String, String)> },
    /// Send a command to the presentation surface.
    Send(MsgGui),
    /// Report a problem; the list goes on.
    Report(Problem),
    /// An action changed the store and needs nothing from outside.
    Nothing,
    /// The action list is done: send these commands, which enable or disable
    /// the affected elements, and drop the dispatch.
    Finished(Vec<MsgGui>),
}

/// What a [`Step`] says, over views.
pub enum StepView {
    Spawn {
        program: Seq<char>,
        args: Seq<Seq<char>>,
        input: Option<Seq<char>>,
        env: Seq<(Seq<char>, Seq<char>)>,
    },
    Send(MsgGuiView),
    Report(ProblemView),
    Nothing,
    Finished(Seq<MsgGuiView>),
}

impl View for Step {
    type V = StepView;

    open spec fn view(&self) -> StepView {
        match self {
            Step::Spawn { program, args, input, env } => StepView::Spawn {
                program: program@,
                args: views(args@),
                input: opt_view(*input),
                env: pairs_view(env@),
            },
            Step::Send(m) => StepView::Send(m@),
            Step::Report(p) => StepView::Report(p@),
            Step::Nothing => StepView::Nothing,
            Step::Finished(v) => StepView::Finished(msgs_view(v@)),
        }
    }
}

/// Which action list a dispatch runs.
#[derive(Debug, Clone, Copy)]
pub enum Source {
    /// None: the trigger carries no action list.
    Empty,
    /// The click actions of the element at this position, if it is a button.
    Node(usize),
    /// The configuration's start actions, if it has them.
    Initialize,
}

/// The state of a dispatch, over views.
pub struct DispatchView {
    pub source: Source,
    pub pos: int,
    pub last_out: Option<Seq<char>>,
    pub marks: Seq<bool>,
}

/// The processing of one trigger.
pub struct Dispatch {
    /// The action list being run.
    pub source: Source,
    /// The position of the next action.
    pub pos: usize,
    /// The captured output of the last program, until an action takes it.
    pub last_out: Option<String>,
    /// For each element, whether a variable that its condition mentions has
    /// been written during this trigger.
    pub marks: Vec<bool>,
}

impl View for Dispatch {
    type V = DispatchView;

    open spec fn view(&self) -> DispatchView {
        DispatchView {
            source: self.source,
            pos: self.pos as int,
            last_out: opt_view(self.last_out),
            marks: self.marks@,
        }
    }
}

/// The action list that `src` names in `config`; empty where it names none.
pub open spec fn actions_of(config: Config, src: Source) -> Seq<Action> {
    match src {
        Source::Empty => seq![],
        Source::Node(i) => if i < config.nodes@.len() {
            match config.nodes@[i as int] {
                Node::Button(b) => b.on_click@,
                _ => seq![],
            }
        } else {
            seq![]
        },
        Source::Initialize => match config.initialize {
            Some(v) => v@,
            None => seq![],
        },
    }
}

/// `marks` after a write to `v`: every element whose condition mentions `v`
/// is marked as well.
pub open spec fn marked(marks: Seq<bool>, nodes: Seq<Node>, v: Seq<char>) -> Seq<bool> {
    Seq::new(marks.len(), |j: int| marks[j] || node_mentions(nodes[j], v))
}

/// The commands that re-evaluate, in increasing order of position, each of
/// the first `upto` elements that is marked and has a condition.
pub open spec fn updates(
    nodes: Seq<Node>,
    marks: Seq<bool>,
    vars: Seq<(Seq<char>, Seq<char>)>,
    upto: int,
) -> Seq<MsgGuiView>
    decreases upto,
{
    if upto <= 0 {
        seq![]
    } else {
        let prev = updates(nodes, marks, vars, upto - 1);
        let j = upto - 1;
        match node_condition(nodes[j]) {
            Some(c) => if marks[j] {
                prev.push(MsgGuiView::SetActive { node: j as usize, active: condition_holds(c, vars) })
            } else {
                prev
            },
            None => prev,
        }
    }
}

/// The state in which a trigger starts, and the store after it.
pub open spec fn start_spec(
    config: Config,
    vars: Seq<(Seq<char>, Seq<char>)>,
    msg: MsgHandler,
) -> (DispatchView, Seq<(Seq<char>, Seq<char>)>) {
    let nodes = config.nodes@;
    let none = Seq::new(nodes.len(), |j: int| false);
    match msg {
        MsgHandler::Initialize => (
            DispatchView { source: Source::Initialize, pos: 0, last_out: None, marks: none },
            vars,
        ),
        MsgHandler::Action(i) => (
            DispatchView { source: Source::Node(i), pos: 0, last_out: None, marks: none },
            vars,
        ),
        MsgHandler::Var { variable, value } => (
            DispatchView {
                source: Source::Empty,
                pos: 0,
                last_out: None,
                marks: marked(none, nodes, variable@),
            },
            stored(vars, variable@, value@),
        ),
    }
}

/// One step of a dispatch: what it asks for, its next state and the store
/// after it.
pub open spec fn step_spec(
    config: Config,
    d: DispatchView,
    vars: Seq<(Seq<char>, Seq<char>)>,
) -> (StepView, DispatchView, Seq<(Seq<char>, Seq<char>)>) {
    let acts = actions_of(config, d.source);
    let nodes = config.nodes@;
    if d.pos < 0 || d.pos >= acts.len() {
        (StepView::Finished(updates(nodes, d.marks, vars, nodes.len() as int)), d, vars)
    } else {
        let next = DispatchView { pos: d.pos + 1, ..d };
        match acts[d.pos] {
            Action::Run { command } => if command@.len() == 0 {
                (StepView::Report(ProblemView::SpawnFailed), DispatchView { pos: acts.len() as int, ..d }, vars)
            } else {
                (
                    StepView::Spawn {
                        program: command@[0]@,
                        args: Seq::new(
                            (command@.len() - 1) as nat,
                            |k: int| substituted(command@[k + 1]@, vars),
                        ),
                        input: d.last_out,
                        env: vars,
                    },
                    DispatchView { last_out: None, ..next },
                    vars,
                )
            },
            Action::Show { container } => match d.last_out {
                Some(t) => (
                    StepView::Send(MsgGuiView::Show { container: container@, text: t }),
                    DispatchView { last_out: None, ..next },
                    vars,
                ),
                None => (StepView::Report(ProblemView::MissingOutput), next, vars),
            },
            Action::Var { name, value } => {
                let next = DispatchView { marks: marked(d.marks, nodes, name@), ..next };
                match value {
                    Some(v) => (StepView::Nothing, next, stored(vars, name@, v@)),
                    None => match d.last_out {
                        Some(t) => (
                            StepView::Nothing,
                            DispatchView { last_out: None, ..next },
                            stored(vars, name@, trim_newline(t)),
                        ),
                        None => (StepView::Report(ProblemView::MissingOutput), next, vars),
                    },
                }
            },
            Action::Options { variable, container } => match d.last_out {
                Some(t) => (
                    StepView::Send(
                        MsgGuiView::Options {
                            container: container@,
                            variable: variable@,
                            options: lines(t).map_values(|l: Seq<char>| (l, l)),
                        },
                    ),
                    DispatchView { last_out: None, ..next },
                    vars,
                ),
                None => (StepView::Report(ProblemView::MissingOutput), next, vars),
            },
            Action::Image { variable, container } => match lookup(vars, variable@) {
                Some(p) => (
                    StepView::Send(MsgGuiView::Image { container: container@, filename: p }),
                    next,
                    vars,
                ),
                None => (
                    StepView::Report(ProblemView::UnsetVariable { variable: variable@ }),
                    next,
                    vars,
                ),
            },
        }
    }
}

/// The state after a program's outcome: a failure to start ends the list,
/// anything else keeps it going with the program's output captured.
pub open spec fn resume_spec(config: Config, d: DispatchView, o: OutcomeView) -> (
    Option<ProblemView>,
    DispatchView,
) {
    match o {
        OutcomeView::SpawnFailed => (
            Some(ProblemView::SpawnFailed),
            DispatchView { pos: actions_of(config, d.source).len() as int, ..d },
        ),
        OutcomeView::Exited { success, output } => (
            if success {
                None
            } else {
                Some(ProblemView::ExitFailed)
            },
            DispatchView { last_out: Some(output), ..d },
        ),
    }
}

/// The action list that `src` names in `config`, if it names one.
fn actions_for(config: &Config, src: Source) -> (r: Option<&Vec<Action>>)
    ensures
        match r {
            Some(v) => v@ == actions_of(*config, src),
            None => actions_of(*config, src) == Seq::<Action>::empty(),
        },
{
    match src {
        Source::Empty => None,
        Source::Node(i) => if i < config.nodes.len() {
            match &config.nodes[i] {
                Node::Button(b) => Some(&b.on_click),
                Node::RadioButtons(_) => None,
                Node::Container(_) => None,
                Node::Input(_) => None,
            }
        } else {
            None
        },
        Source::Initialize => config.initialize.as_ref(),
    }
}

/// Marks every element whose condition mentions `variable`, as the index
/// lists them.
fn mark_written(marks: &mut Vec<bool>, nodes: &Vec<Node>, conditionals: &Conditionals, variable: &str)
    requires
        old(marks)@.len() == nodes@.len(),
        conditionals.describes(nodes@),
    ensures
        final(marks)@ == marked(old(marks)@, nodes@, variable@),
{
    let ids = conditionals.affected(variable);
    assert(ids@ == conditionals.ids(variable@));
    assert(ids@ == crate::conditionals::mentioning(nodes@, variable@, nodes@.len() as int));
    let n = nodes.len();
    assert(n == nodes@.len());
    let mut t: usize = 0;
    while t < ids.len()
        invariant
            t <= ids.len(),
            nodes@.len() <= usize::MAX,
            marks@.len() == old(marks)@.len() == nodes@.len(),
            ids@ == crate::conditionals::mentioning(nodes@, variable@, nodes@.len() as int),
            forall|j: int|
                0 <= j < marks@.len() ==> #[trigger] marks@[j] == (old(marks)@[j] || exists|u: int|
                    0 <= u < t && ids@[u] == j),
        decreases ids.len() - t,
    {
        let id = ids[t];
        proof {
            lemma_mentioning(nodes@, variable@, nodes@.len() as int, id);
            assert(ids@.contains(id));
        }
        let ghost before = marks@;
        marks.set(id, true);
        assert forall|j: int| 0 <= j < marks@.len() implies #[trigger] marks@[j] == (old(marks)@[j]
            || exists|u: int| 0 <= u < t + 1 && ids@[u] == j) by {
            if j != id {
                assert(marks@[j] == before[j]);
                if exists|u: int| 0 <= u < t + 1 && ids@[u] == j {
                    let u = choose|u: int| 0 <= u < t + 1 && ids@[u] == j;
                    assert(u != t);
                }
            } else {
                assert(ids@[t as int] == j);
            }
        }
        t = t + 1;
    }
    assert forall|j: int| 0 <= j < marks@.len() implies #[trigger] marks@[j] == marked(
        old(marks)@,
        nodes@,
        variable@,
    )[j] by {
        lemma_mentioning(nodes@, variable@, nodes@.len() as int, j as usize);
        if ids@.contains(j as usize) {
            let u = choose|u: int| 0 <= u < ids@.len() && ids@[u] == j as usize;
            assert(ids@[u] == j);
        }
        if exists|u: int| 0 <= u < ids@.len() && ids@[u] == j {
            let u = choose|u: int| 0 <= u < ids@.len() && ids@[u] == j;
            assert(ids@[u] == j as usize);
        }
    }
    assert(marks@ =~= marked(old(marks)@, nodes@, variable@));
}

/// The commands that re-evaluate each marked element that has a condition,
/// in increasing order of position.
pub fn conditional_updates(config: &Config, marks: &Vec<bool>, vars: &Vars) -> (r: Vec<MsgGui>)
    requires
        marks@.len() == config.nodes@.len(),
        vars.wf(),
    ensures
        msgs_view(r@) == updates(config.nodes@, marks@, vars@, config.nodes@.len() as int),
{
    let nodes = &config.nodes;
    let mut r: Vec<MsgGui> = Vec::new();
    let mut j: usize = 0;
    while j < nodes.len()
        invariant
            j <= nodes.len(),
            marks@.len() == nodes@.len(),
            vars.wf(),
            msgs_view(r@) == updates(nodes@, marks@, vars@, j as int),
        decreases nodes.len() - j,
    {
        let ghost before = r@;
        if marks[j] {
            if let Some(c) = condition_of(&nodes[j]) {
                let active = check_condition(c, vars);
                r.push(MsgGui::SetActive { node: j, active });
                assert(msgs_view(r@) =~= msgs_view(before).push(r@[before.len() as int]@));
            }
        }
        assert(msgs_view(r@) =~= updates(nodes@, marks@, vars@, j + 1));
        j = j + 1;
    }
    r
}

impl Dispatch {
    /// The marks cover every element of the configuration.
    pub open spec fn wf(&self, config: Config) -> bool {
        self.marks@.len() == config.nodes@.len()
    }

    /// Begins processing a trigger. A variable change is written to the store
    /// here and marks the elements that mention the variable; the other
    /// triggers pick the action list to run.
    pub fn start(config: &Config, conditionals: &Conditionals, vars: &mut Vars, msg: MsgHandler) -> (r:
        Dispatch)
        requires
            old(vars).wf(),
            conditionals.describes(config.nodes@),
        ensures
            r.wf(*config),
            final(vars).wf(),
            (r@, final(vars)@) == start_spec(*config, old(vars)@, msg),
    {
        let ghost m = msg;
        let mut marks: Vec<bool> = Vec::new();
        let mut j: usize = 0;
        while j < config.nodes.len()
            invariant
                j <= config.nodes.len(),
                marks@ == Seq::new(j as nat, |k: int| false),
            decreases config.nodes.len() - j,
        {
            marks.push(false);
            assert(marks@ =~= Seq::new((j + 1) as nat, |k: int| false));
            j = j + 1;
        }
        let source = match msg {
            MsgHandler::Initialize => Source::Initialize,
            MsgHandler::Action(i) => Source::Node(i),
            MsgHandler::Var { variable, value } => {
                mark_written(&mut marks, &config.nodes, conditionals, variable.as_str());
                vars.set(variable, value);
                Source::Empty
            },
        };
        let r = Dispatch { source, pos: 0, last_out: None, marks };
        assert(r@.marks =~= start_spec(*config, old(vars)@, m).0.marks);
        r
    }

    /// Takes the next step of the action list, or finishes it. Each call
    /// handles one action: a program to run is asked for, not run. A `Run`
    /// with an empty command names no program: it counts as one that could
    /// not start, and ends the list.
    pub fn next(&mut self, config: &Config, conditionals: &Conditionals, vars: &mut Vars) -> (r: Step)
        requires
            old(self).wf(*config),
            old(vars).wf(),
            conditionals.describes(config.nodes@),
        ensures
            final(self).wf(*config),
            final(vars).wf(),
            (r@, final(self)@, final(vars)@) == step_spec(*config, old(self)@, old(vars)@),
    {
        let acts = match actions_for(config, self.source) {
            Some(a) => a,
            None => {
                return Step::Finished(conditional_updates(config, &self.marks, vars));
            },
        };
        if self.pos >= acts.len() {
            return Step::Finished(conditional_updates(config, &self.marks, vars));
        }
        let action = &acts[self.pos];
        self.pos = self.pos + 1;
        match action {
            Action::Run { command } => {
                if command.len() == 0 {
                    self.pos = acts.len();
                    return Step::Report(Problem::SpawnFailed);
                }
                let program = command[0].clone();
                let mut args: Vec<String> = Vec::new();
                let mut k: usize = 1;
                while k < command.len()
                    invariant
                        1 <= k <= command.len(),
                        vars.wf(),
                        views(args@) == Seq::new(
                            (k - 1) as nat,
                            |a: int| substituted(command@[a + 1]@, vars@),
                        ),
                    decreases command.len() - k,
                {
                    let arg = vars.substitute(command[k].as_str());
                    let ghost before = args@;
                    args.push(arg);
                    assert(views(args@) =~= views(before).push(substituted(command@[k as int]@, vars@)));
                    assert(views(args@) =~= Seq::new(
                        k as nat,
                        |a: int| substituted(command@[a + 1]@, vars@),
                    ));
                    k = k + 1;
                }
                let input = self.last_out.take();
                let env = vars.snapshot();
                Step::Spawn { program, args, input, env }
            },
            Action::Show { container } => match self.last_out.take() {
                Some(text) => Step::Send(MsgGui::Show { container: container.clone(), text }),
                None => Step::Report(Problem::MissingOutput),
            },
            Action::Var { name, value } => {
                mark_written(&mut self.marks, &config.nodes, conditionals, name.as_str());
                match value {
                    Some(v) => {
                        vars.set(name.clone(), v.clone());
                        Step::Nothing
                    },
                    None => match self.last_out.take() {
                        Some(out) => {
                            vars.set(name.clone(), trim_one_newline(out.as_str()));
                            Step::Nothing
                        },
                        None => Step::Report(Problem::MissingOutput),
                    },
                }
            },
            Action::Options { variable, container } => match self.last_out.take() {
                Some(out) => {
                    let lines = split_lines(out.as_str());
                    let mut options: Vec<(String, String)> = Vec::new();
                    let mut t: usize = 0;
                    while t < lines.len()
                        invariant
                            t <= lines.len(),
                            pairs_view(options@) == views(lines@).subrange(0, t as int).map_values(
                                |l: Seq<char>| (l, l),
                            ),
                        decreases lines.len() - t,
                    {
                        let ghost before = options@;
                        let ghost l = views(lines@)[t as int];
                        options.push((lines[t].clone(), lines[t].clone()));
                        assert(pairs_view(options@) =~= pairs_view(before).push((l, l)));
                        assert(pairs_view(options@) =~= views(lines@).subrange(
                            0,
                            t + 1,
                        ).map_values(|l: Seq<char>| (l, l)));
                        t = t + 1;
                    }
                    assert(views(lines@).subrange(0, lines.len() as int) =~= views(lines@));
                    Step::Send(
                        MsgGui::Options {
                            container: container.clone(),
                            variable: variable.clone(),
                            options,
                        },
                    )
                },
                None => Step::Report(Problem::MissingOutput),
            },
            Action::Image { variable, container } => match vars.get(variable.as_str()) {
                Some(filename) => Step::Send(MsgGui::Image { container: container.clone(), filename }),
                None => Step::Report(Problem::UnsetVariable { variable: variable.clone() }),
            },
        }
    }

    /// Takes what came of the program that the last step asked for. A program
    /// that could not start ends the list; one that ran, whatever its status,
    /// leaves its output for the next action.
    pub fn resume(&mut self, config: &Config, outcome: Outcome) -> (r: Option<Problem>)
        ensures
            final(self).marks@ == old(self).marks@,
            (opt_problem(r), final(self)@) == resume_spec(*config, old(self)@, outcome@),
    {
        match outcome {
            Outcome::SpawnFailed => {
                self.pos = match actions_for(config, self.source) {
                    Some(a) => a.len(),
                    None => 0,
                };
                Some(Problem::SpawnFailed)
            },
            Outcome::Exited { success, output } => {
                self.last_out = Some(output);
                if success {
                    None
                } else {
                    Some(Problem::ExitFailed)
                }
            },
        }
    }
}

/// After a `Var` action with a literal value, the store holds that value under
/// the action's name.
pub proof fn lemma_var_literal_round_trip(
    config: Config,
    d: DispatchView,
    vars: Seq<(Seq<char>, Seq<char>)>,
    name: String,
    value: String,
)
    requires
        keys_unique(vars),
        0 <= d.pos < actions_of(config, d.source).len(),
        actions_of(config, d.source)[d.pos] == (Action::Var { name, value: Some(value) }),
    ensures
        lookup(step_spec(config, d, vars).2, name@) == Some(value@),
        step_spec(config, d, vars).1.pos == d.pos + 1,
{
    lemma_lookup_stored(vars, name@, value@, name@);
}

/// A `Var` action without a value stores the captured output less exactly one
/// trailing newline, and takes the output.
pub proof fn lemma_var_from_output(
    config: Config,
    d: DispatchView,
    vars: Seq<(Seq<char>, Seq<char>)>,
    name: String,
    out: Seq<char>,
)
    requires
        keys_unique(vars),
        0 <= d.pos < actions_of(config, d.source).len(),
        actions_of(config, d.source)[d.pos] == (Action::Var { name, value: None }),
        d.last_out == Some(out),
    ensures
        lookup(step_spec(config, d, vars).2, name@) == Some(trim_newline(out)),
        step_spec(config, d, vars).1.last_out is None,
{
    lemma_lookup_stored(vars, name@, trim_newline(out), name@);
}

/// Trimming removes one newline and no more: text followed by a newline comes
/// back as the text, whatever it ends in.
pub proof fn lemma_trim_exactly_one(t: Seq<char>)
    ensures
        trim_newline(t.push('\n')) == t,
{
    assert(t.push('\n').drop_last() =~= t);
}

/// A program that ran but failed does not end the list: its output, possibly
/// empty, reaches a following `Show`.
pub proof fn lemma_exit_failure_continues(
    config: Config,
    d: DispatchView,
    vars: Seq<(Seq<char>, Seq<char>)>,
    output: Seq<char>,
    container: String,
)
    requires
        0 <= d.pos < actions_of(config, d.source).len(),
        actions_of(config, d.source)[d.pos] == (Action::Show { container }),
    ensures
        resume_spec(config, d, OutcomeView::Exited { success: false, output }).0 == Some(
            ProblemView::ExitFailed,
        ),
        step_spec(
            config,
            resume_spec(config, d, OutcomeView::Exited { success: false, output }).1,
            vars,
        ).0 == StepView::Send(MsgGuiView::Show { container: container@, text: output }),
{
}

/// A program that could not start ends the list: from then on every step
/// finishes, runs no action and changes nothing.
pub proof fn lemma_spawn_failure_stops(
    config: Config,
    d: DispatchView,
    vars: Seq<(Seq<char>, Seq<char>)>,
)
    ensures
        ({
            let d2 = resume_spec(config, d, OutcomeView::SpawnFailed).1;
            &&& step_spec(config, d2, vars).0 is Finished
            &&& step_spec(config, d2, vars).1 == d2
            &&& step_spec(config, d2, vars).2 == vars
        }),
{
}

/// The element a command enables or disables, or -1 for other commands.
pub open spec fn node_of(m: MsgGuiView) -> int {
    match m {
        MsgGuiView::SetActive { node, active } => node as int,
        _ => -1,
    }
}

/// The re-evaluation commands are one per marked element that has a
/// condition, in increasing order of position, each with the condition's value
/// against the store.
pub proof fn lemma_updates_shape(
    nodes: Seq<Node>,
    marks: Seq<bool>,
    vars: Seq<(Seq<char>, Seq<char>)>,
    upto: int,
)
    requires
        0 <= upto <= nodes.len() <= usize::MAX,
        marks.len() == nodes.len(),
    ensures
        forall|k: int|
            0 <= k < updates(nodes, marks, vars, upto).len() ==> 0 <= #[trigger] node_of(
                updates(nodes, marks, vars, upto)[k],
            ) < upto,
        forall|k1: int, k2: int|
            0 <= k1 < k2 < updates(nodes, marks, vars, upto).len() ==> node_of(
                #[trigger] updates(nodes, marks, vars, upto)[k1],
            ) < node_of(#[trigger] updates(nodes, marks, vars, upto)[k2]),
        forall|j: int|
            0 <= j < upto && marks[j] && #[trigger] node_condition(nodes[j]) is Some ==> exists|k: int|
                0 <= k < updates(nodes, marks, vars, upto).len() && updates(nodes, marks, vars, upto)[k]
                    == (MsgGuiView::SetActive {
                    node: j as usize,
                    active: condition_holds(node_condition(nodes[j])->0, vars),
                }),
        forall|k: int|
            0 <= k < updates(nodes, marks, vars, upto).len() ==> marks[node_of(
                #[trigger] updates(nodes, marks, vars, upto)[k],
            )] && node_condition(nodes[node_of(updates(nodes, marks, vars, upto)[k])]) is Some,
    decreases upto,
{
    if upto > 0 {
        lemma_updates_shape(nodes, marks, vars, upto - 1);
        let prev = updates(nodes, marks, vars, upto - 1);
        let u = updates(nodes, marks, vars, upto);
        let j = upto - 1;
        if marks[j] && node_condition(nodes[j]) is Some {
            assert(u == prev.push(
                MsgGuiView::SetActive {
                    node: j as usize,
                    active: condition_holds(node_condition(nodes[j])->0, vars),
                },
            ));
            assert(node_of(u[prev.len() as int]) == j);
            assert forall|k: int| 0 <= k < prev.len() implies u[k] == prev[k] by {}
        } else {
            assert(u == prev);
        }
    }
}

/// An element that a trigger marks gets exactly one command that enables or
/// disables it, carrying whether its condition holds against the store as the
/// action list left it; an element that is not marked gets none.
pub proof fn lemma_recomputed_once(
    nodes: Seq<Node>,
    marks: Seq<bool>,
    vars: Seq<(Seq<char>, Seq<char>)>,
    j: int,
)
    requires
        nodes.len() <= usize::MAX,
        marks.len() == nodes.len(),
        0 <= j < nodes.len(),
    ensures
        ({
            let u = updates(nodes, marks, vars, nodes.len() as int);
            &&& forall|k1: int, k2: int|
                0 <= k1 < u.len() && 0 <= k2 < u.len() && node_of(u[k1]) == j && node_of(u[k2]) == j
                    ==> k1 == k2
            &&& (marks[j] && node_condition(nodes[j]) is Some) ==> exists|k: int|
                0 <= k < u.len() && u[k] == (MsgGuiView::SetActive {
                    node: j as usize,
                    active: condition_holds(node_condition(nodes[j])->0, vars),
                })
            &&& !(marks[j] && node_condition(nodes[j]) is Some) ==> forall|k: int|
                0 <= k < u.len() ==> node_of(u[k]) != j
        }),
{
    let n = nodes.len() as int;
    lemma_updates_shape(nodes, marks, vars, n);
    let u = updates(nodes, marks, vars, n);
    assert forall|k1: int, k2: int|
        0 <= k1 < u.len() && 0 <= k2 < u.len() && node_of(u[k1]) == j && node_of(u[k2]) == j
            implies k1 == k2 by {
        if k1 < k2 {
            assert(node_of(u[k1]) < node_of(u[k2]));
        } else if k2 < k1 {
            assert(node_of(u[k2]) < node_of(u[k1]));
        }
    }
    if marks[j] && node_condition(nodes[j]) is Some {
        assert(node_condition(nodes[j]) is Some);
    } else {
        assert forall|k: int| 0 <= k < u.len() implies node_of(u[k]) != j by {
            assert(marks[node_of(u[k])] && node_condition(nodes[node_of(u[k])]) is Some);
        }
    }
}

/// A condition with one constraint that is not negated holds exactly when the
/// variable has the value.
pub proof fn lemma_single_constraint(
    name: Seq<char>,
    value: Seq<char>,
    vars: Seq<(Seq<char>, Seq<char>)>,
)
    requires
        !is_negated(name),
    ensures
        condition_holds(seq![(name, value)], vars) <==> lookup(vars, name) == Some(value),
{
    let c = seq![(name, value)];
    if condition_holds(c, vars) {
        assert(constraint_holds(c[0].0, c[0].1, vars));
    }
}

/// A trigger that writes a variable marks exactly the elements whose
/// condition mentions it, keeping the marks made before.
pub proof fn lemma_written_marks(marks: Seq<bool>, nodes: Seq<Node>, v: Seq<char>, j: int)
    requires
        marks.len() == nodes.len(),
        0 <= j < nodes.len(),
    ensures
        marked(marks, nodes, v)[j] == (marks[j] || node_mentions(nodes[j], v)),
{
}

/// The dispatcher's steps are functions of the configuration, the state and the
/// store: two runs from equal states and stores take equal steps, so replaying a
/// trigger against the same store, with the same program outcomes, gives the
/// same commands and the same store.
pub proof fn lemma_deterministic(
    config: Config,
    d1: DispatchView,
    d2: DispatchView,
    v1: Seq<(Seq<char>, Seq<char>)>,
    v2: Seq<(Seq<char>, Seq<char>)>,
    o: OutcomeView,
)
    requires
        d1 == d2,
        v1 == v2,
    ensures
        step_spec(config, d1, v1) == step_spec(config, d2, v2),
        resume_spec(config, d1, o) == resume_spec(config, d2, o),
{
}

} // verus!
