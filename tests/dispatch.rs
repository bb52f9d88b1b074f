use qugui::conditionals::{map_conditionals, Conditionals};
use qugui::config::{
    Action, ButtonNode, Config, ConfigLayout, ContainerNode, InputNode, Node, Placement,
    RadioButtonsNode,
};
use qugui::handler::{Dispatch, MsgGui, MsgHandler, Outcome, Problem, Step};
use qugui::store::Vars;

fn s(x: &str) -> String {
    x.to_string()
}

fn place() -> Placement {
    Placement { spacing: None, x: None, y: None, w: None, h: None }
}

fn button(actions: Vec<Action>, active_when: Option<Vec<(String, String)>>) -> Node {
    Node::Button(ButtonNode { text: s("go"), on_click: actions, placement: place(), active_when })
}

fn container(name: &str) -> Node {
    Node::Container(ContainerNode { name: s(name), placement: place() })
}

fn config(nodes: Vec<Node>, initialize: Option<Vec<Action>>) -> Config {
    Config {
        title: s("panel"),
        width: None,
        height: None,
        nodes,
        layout: ConfigLayout::Vertical { spacing: None },
        initialize,
    }
}

fn run(cmd: &[&str]) -> Action {
    Action::Run { command: cmd.iter().map(|c| c.to_string()).collect() }
}

/// What a trigger asked for: programs run, commands sent, problems reported.
#[derive(Debug, Default)]
struct Trace {
    spawned: Vec<(String, Vec<String>, Option<String>)>,
    sent: Vec<MsgGui>,
    problems: Vec<Problem>,
}

/// Processes one trigger, answering the programs it asks for from `outcomes`.
fn drive(
    config: &Config,
    index: &Conditionals,
    vars: &mut Vars,
    msg: MsgHandler,
    outcomes: Vec<Outcome>,
) -> Trace {
    let mut outcomes = outcomes.into_iter();
    let mut trace = Trace::default();
    let mut d = Dispatch::start(config, index, vars, msg);
    loop {
        match d.next(config, index, vars) {
            Step::Spawn { program, args, input, .. } => {
                trace.spawned.push((program, args, input));
                let o = outcomes.next().expect("a program was run that the test did not expect");
                if let Some(p) = d.resume(config, o) {
                    trace.problems.push(p);
                }
            }
            Step::Send(m) => trace.sent.push(m),
            Step::Report(p) => trace.problems.push(p),
            Step::Nothing => {}
            Step::Finished(updates) => {
                trace.sent.extend(updates);
                break;
            }
        }
    }
    trace
}

fn ok(out: &str) -> Outcome {
    Outcome::Exited { success: true, output: s(out) }
}

#[test]
fn var_literal_round_trip() {
    let c = config(vec![button(vec![Action::Var { name: s("x"), value: Some(s("5")) }], None)], None);
    let idx = map_conditionals(&c);
    let mut vars = Vars::new();
    let t = drive(&c, &idx, &mut vars, MsgHandler::Action(0), vec![]);
    assert_eq!(vars.get("x"), Some(s("5")));
    assert!(t.sent.is_empty() && t.problems.is_empty());
}

#[test]
fn pipeline_into_options() {
    let c = config(
        vec![
            button(
                vec![run(&["printf", "a\nb\nc"]), Action::Options { variable: s("x"), container: s("c1") }],
                None,
            ),
            container("c1"),
        ],
        None,
    );
    let idx = map_conditionals(&c);
    let mut vars = Vars::new();
    let t = drive(&c, &idx, &mut vars, MsgHandler::Action(0), vec![ok("a\nb\nc")]);
    assert_eq!(t.spawned, vec![(s("printf"), vec![s("a\nb\nc")], None)]);
    assert_eq!(
        t.sent,
        vec![MsgGui::Options {
            container: s("c1"),
            variable: s("x"),
            options: vec![(s("a"), s("a")), (s("b"), s("b")), (s("c"), s("c"))],
        }]
    );
}

#[test]
fn output_piped_into_next_program() {
    let c = config(
        vec![button(vec![run(&["ls"]), run(&["grep", "rs"]), Action::Show { container: s("c1") }], None)],
        None,
    );
    let idx = map_conditionals(&c);
    let mut vars = Vars::new();
    let t = drive(&c, &idx, &mut vars, MsgHandler::Action(0), vec![ok("a.rs\nb.txt\n"), ok("a.rs\n")]);
    assert_eq!(t.spawned[0].2, None);
    assert_eq!(t.spawned[1].2, Some(s("a.rs\nb.txt\n")));
    assert_eq!(t.sent, vec![MsgGui::Show { container: s("c1"), text: s("a.rs\n") }]);
}

#[test]
fn var_trims_one_trailing_newline() {
    let c = config(vec![button(vec![run(&["echo", "hello"]), Action::Var { name: s("y"), value: None }], None)], None);
    let idx = map_conditionals(&c);
    let mut vars = Vars::new();
    drive(&c, &idx, &mut vars, MsgHandler::Action(0), vec![ok("hello\n")]);
    assert_eq!(vars.get("y"), Some(s("hello")));
    drive(&c, &idx, &mut vars, MsgHandler::Action(0), vec![ok("hello\n\n")]);
    assert_eq!(vars.get("y"), Some(s("hello\n")));
}

#[test]
fn exit_failure_keeps_going() {
    let c = config(vec![button(vec![run(&["false"]), Action::Show { container: s("c1") }], None)], None);
    let idx = map_conditionals(&c);
    let mut vars = Vars::new();
    let t = drive(
        &c,
        &idx,
        &mut vars,
        MsgHandler::Action(0),
        vec![Outcome::Exited { success: false, output: s("") }],
    );
    assert_eq!(t.problems, vec![Problem::ExitFailed]);
    assert_eq!(t.sent, vec![MsgGui::Show { container: s("c1"), text: s("") }]);
}

#[test]
fn spawn_failure_stops_the_list() {
    let c = config(
        vec![button(
            vec![run(&["no-such-program"]), Action::Show { container: s("c1") }, Action::Var { name: s("z"), value: Some(s("1")) }],
            None,
        )],
        None,
    );
    let idx = map_conditionals(&c);
    let mut vars = Vars::new();
    let t = drive(&c, &idx, &mut vars, MsgHandler::Action(0), vec![Outcome::SpawnFailed]);
    assert_eq!(t.problems, vec![Problem::SpawnFailed]);
    assert!(t.sent.is_empty());
    assert_eq!(vars.get("z"), None);
    // the next trigger is processed as usual
    let t2 = drive(&c, &idx, &mut vars, MsgHandler::Var { variable: s("q"), value: s("v") }, vec![]);
    assert!(t2.problems.is_empty());
    assert_eq!(vars.get("q"), Some(s("v")));
}

#[test]
fn empty_command_counts_as_spawn_failure() {
    let c = config(vec![button(vec![run(&[]), Action::Show { container: s("c1") }], None)], None);
    let idx = map_conditionals(&c);
    let mut vars = Vars::new();
    let t = drive(&c, &idx, &mut vars, MsgHandler::Action(0), vec![]);
    assert!(t.spawned.is_empty());
    assert_eq!(t.problems, vec![Problem::SpawnFailed]);
    assert!(t.sent.is_empty());
}

#[test]
fn missing_output_is_reported() {
    let c = config(
        vec![button(
            vec![
                Action::Show { container: s("c1") },
                Action::Options { variable: s("x"), container: s("c1") },
                Action::Var { name: s("v"), value: None },
            ],
            None,
        )],
        None,
    );
    let idx = map_conditionals(&c);
    let mut vars = Vars::new();
    let t = drive(&c, &idx, &mut vars, MsgHandler::Action(0), vec![]);
    assert_eq!(t.problems, vec![Problem::MissingOutput, Problem::MissingOutput, Problem::MissingOutput]);
    assert_eq!(vars.get("v"), None);
}

#[test]
fn output_is_taken_once() {
    let c = config(
        vec![button(vec![run(&["date"]), Action::Show { container: s("a") }, Action::Show { container: s("b") }], None)],
        None,
    );
    let idx = map_conditionals(&c);
    let mut vars = Vars::new();
    let t = drive(&c, &idx, &mut vars, MsgHandler::Action(0), vec![ok("now")]);
    assert_eq!(t.sent, vec![MsgGui::Show { container: s("a"), text: s("now") }]);
    assert_eq!(t.problems, vec![Problem::MissingOutput]);
}

#[test]
fn image_from_variable() {
    let c = config(vec![button(vec![Action::Image { variable: s("img"), container: s("c1") }], None)], None);
    let idx = map_conditionals(&c);
    let mut vars = Vars::new();
    let t = drive(&c, &idx, &mut vars, MsgHandler::Action(0), vec![]);
    assert_eq!(t.problems, vec![Problem::UnsetVariable { variable: s("img") }]);
    vars.set(s("img"), s("/tmp/a.png"));
    let t = drive(&c, &idx, &mut vars, MsgHandler::Action(0), vec![]);
    assert_eq!(t.sent, vec![MsgGui::Image { container: s("c1"), filename: s("/tmp/a.png") }]);
}

#[test]
fn arguments_are_substituted() {
    let c = config(vec![button(vec![run(&["$prog", "--file=$f", "$f$f"])], None)], None);
    let idx = map_conditionals(&c);
    let mut vars = Vars::new();
    vars.set(s("$f"), s("x.txt"));
    vars.set(s("$prog"), s("cat"));
    let t = drive(&c, &idx, &mut vars, MsgHandler::Action(0), vec![ok("")]);
    assert_eq!(t.spawned, vec![(s("$prog"), vec![s("--file=x.txt"), s("x.txtx.txt")], None)]);
}

#[test]
fn spawn_carries_the_store_as_environment() {
    let c = config(vec![button(vec![run(&["env"])], None)], None);
    let idx = map_conditionals(&c);
    let mut vars = Vars::new();
    vars.set(s("a"), s("1"));
    let mut d = Dispatch::start(&c, &idx, &mut vars, MsgHandler::Action(0));
    match d.next(&c, &idx, &mut vars) {
        Step::Spawn { env, .. } => assert_eq!(env, vec![(s("a"), s("1"))]),
        other => panic!("expected a program to run, got {:?}", other),
    }
}

#[test]
fn recomputation_once_per_trigger() {
    let cond = vec![(s("mode"), s("edit"))];
    let c = config(
        vec![
            button(vec![Action::Var { name: s("mode"), value: Some(s("edit")) }, Action::Var { name: s("mode"), value: Some(s("edit")) }], None),
            button(vec![], Some(cond.clone())),
            Node::Input(InputNode { variable: s("other"), placement: place(), active_when: Some(vec![(s("other"), s("1"))]) }),
        ],
        None,
    );
    let idx = map_conditionals(&c);
    let mut vars = Vars::new();
    // two writes of "mode" in one trigger, one command
    let t = drive(&c, &idx, &mut vars, MsgHandler::Action(0), vec![]);
    assert_eq!(t.sent, vec![MsgGui::SetActive { node: 1, active: true }]);
    // a user change of "mode"
    let t = drive(&c, &idx, &mut vars, MsgHandler::Var { variable: s("mode"), value: s("view") }, vec![]);
    assert_eq!(t.sent, vec![MsgGui::SetActive { node: 1, active: false }]);
    // a change that re-emits the same value
    let t = drive(&c, &idx, &mut vars, MsgHandler::Var { variable: s("mode"), value: s("view") }, vec![]);
    assert_eq!(t.sent, vec![MsgGui::SetActive { node: 1, active: false }]);
    // a variable that no condition of node 1 mentions
    let t = drive(&c, &idx, &mut vars, MsgHandler::Var { variable: s("other"), value: s("1") }, vec![]);
    assert_eq!(t.sent, vec![MsgGui::SetActive { node: 2, active: true }]);
}

#[test]
fn negated_condition_recomputed() {
    let c = config(vec![button(vec![], Some(vec![(s("busy!"), s("yes"))]))], None);
    let idx = map_conditionals(&c);
    let mut vars = Vars::new();
    let t = drive(&c, &idx, &mut vars, MsgHandler::Var { variable: s("busy"), value: s("yes") }, vec![]);
    assert_eq!(t.sent, vec![MsgGui::SetActive { node: 0, active: false }]);
    let t = drive(&c, &idx, &mut vars, MsgHandler::Var { variable: s("busy"), value: s("no") }, vec![]);
    assert_eq!(t.sent, vec![MsgGui::SetActive { node: 0, active: true }]);
}

#[test]
fn initialize_is_repeatable() {
    let init = vec![
        run(&["hostname"]),
        Action::Var { name: s("host"), value: None },
        Action::Image { variable: s("host"), container: s("c1") },
        Action::Var { name: s("mode"), value: Some(s("edit")) },
    ];
    let c = config(vec![button(vec![], Some(vec![(s("mode"), s("edit"))])), container("c1")], Some(init));
    let idx = map_conditionals(&c);
    let mut v1 = Vars::new();
    let t1 = drive(&c, &idx, &mut v1, MsgHandler::Initialize, vec![ok("box\n")]);
    let mut v2 = Vars::new();
    let t2 = drive(&c, &idx, &mut v2, MsgHandler::Initialize, vec![ok("box\n")]);
    assert_eq!(v1.snapshot(), v2.snapshot());
    assert_eq!(t1.sent, t2.sent);
    assert_eq!(t1.spawned, t2.spawned);
    assert_eq!(
        t1.sent,
        vec![
            MsgGui::Image { container: s("c1"), filename: s("box") },
            MsgGui::SetActive { node: 0, active: true },
        ]
    );
}

#[test]
fn no_action_list() {
    let radios = Node::RadioButtons(RadioButtonsNode {
        variable: s("r"),
        options: vec![(s("1"), s("one"))],
        placement: place(),
    });
    let c = config(vec![radios, container("c1")], None);
    let idx = map_conditionals(&c);
    let mut vars = Vars::new();
    for msg in [MsgHandler::Action(0), MsgHandler::Action(1), MsgHandler::Action(7), MsgHandler::Initialize] {
        let t = drive(&c, &idx, &mut vars, msg, vec![]);
        assert!(t.sent.is_empty() && t.problems.is_empty() && t.spawned.is_empty());
    }
}

#[test]
fn index_lists_mentioning_elements() {
    let c = config(
        vec![
            button(vec![], Some(vec![(s("a"), s("1")), (s("b!"), s("2"))])),
            container("c"),
            Node::Input(InputNode { variable: s("x"), placement: place(), active_when: Some(vec![(s("a!"), s("3")), (s("a"), s("4"))]) }),
            button(vec![], None),
        ],
        None,
    );
    let idx = map_conditionals(&c);
    assert_eq!(idx.affected("a"), vec![0, 2]);
    assert_eq!(idx.affected("b"), vec![0]);
    assert_eq!(idx.affected("b!"), Vec::<usize>::new());
    assert_eq!(idx.affected("x"), Vec::<usize>::new());
}
