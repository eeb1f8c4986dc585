//! Lifecycle commands: what a command value runs, and the command lines for host and container.

use vstd::prelude::*;
use vstd::string::*;

use crate::config::DevContainerConfig;
use crate::docker::{join, joined, opt_map, words, Scope};
use crate::error::{failure, BondarError, ErrorView};
use crate::expand::expanded;
use crate::json::{
    elements, group_json, json_text, members, string_items, strings_of, Json, JsonView,
};
use crate::maps::EnvMap;
use crate::notes::{
    each, group_plans, has_pair, info, lemma_and_assoc, lemma_and_nothing, lemma_each_len,
    lemma_each_next, lemma_each_pair, lemma_each_start, no_notes, nothing, opt_flag, option,
    pair_at, told, word, NoteView, Notes, Plan, PlanView,
};
use crate::text::opt_str;
use crate::texts::{texts, Texts};

verus! {

/// A command: a program with its arguments, or a line for the shell.
#[derive(Debug, PartialEq, Eq)]
pub struct Command {
    pub program: String,
    pub args: Texts,
    pub shell: bool,
}

#[verifier::ext_equal]
pub struct CommandView {
    pub program: Seq<char>,
    pub args: Seq<Seq<char>>,
    pub shell: bool,
}

impl View for Command {
    type V = CommandView;

    open spec fn view(&self) -> CommandView {
        CommandView { program: self.program@, args: self.args@, shell: self.shell }
    }
}

/// One step of a lifecycle command. The steps run in order until one fails.
#[derive(Debug)]
pub enum LifecycleStep {
    /// The named part of the command begins.
    Begin(String),
    Run(Command),
    /// The value is not a command.
    Fail(BondarError),
}

#[verifier::ext_equal]
pub enum LifecycleStepView {
    Begin(Seq<char>),
    Run(CommandView),
    Fail(ErrorView),
}

impl View for LifecycleStep {
    type V = LifecycleStepView;

    open spec fn view(&self) -> LifecycleStepView {
        match self {
            LifecycleStep::Begin(s) => LifecycleStepView::Begin(s@),
            LifecycleStep::Run(c) => LifecycleStepView::Run(c@),
            LifecycleStep::Fail(e) => LifecycleStepView::Fail(e@),
        }
    }
}

pub open spec fn steps_view(v: Seq<LifecycleStep>) -> Seq<LifecycleStepView> {
    Seq::new(v.len(), |i: int| v[i]@)
}

/// The command given by a list: its first string is the program, the others are its arguments.
pub open spec fn list_steps(a: Seq<JsonView>) -> Seq<LifecycleStepView> {
    let parts = strings_of(a);
    if a.len() == 0 {
        Seq::empty()
    } else if parts.len() == 0 {
        seq![LifecycleStepView::Fail(ErrorView::Config("Invalid lifecycle array command"@))]
    } else {
        seq![LifecycleStepView::Run(
            CommandView { program: parts[0], args: parts.skip(1), shell: false },
        )]
    }
}

/// What a command value runs: a string is a line for the shell, a list a program with arguments, an
/// object its entries in order; null runs nothing.
pub open spec fn steps_of(value: JsonView) -> Seq<LifecycleStepView>
    decreases value, 0nat,
{
    match value {
        JsonView::String(s) => seq![LifecycleStepView::Run(
            CommandView { program: s, args: Seq::empty(), shell: true },
        )],
        JsonView::Array(a) => list_steps(a),
        JsonView::Object(m) => entry_steps(m, m.len()),
        JsonView::Null => Seq::empty(),
        _ => seq![LifecycleStepView::Fail(
            ErrorView::Config("Invalid lifecycle command type: "@ + json_text(value)),
        )],
    }
}

/// What the first `n` entries of an object run.
pub open spec fn entry_steps(m: Seq<(Seq<char>, JsonView)>, n: nat) -> Seq<LifecycleStepView>
    decreases m, n,
{
    if n == 0 || n > m.len() {
        Seq::empty()
    } else {
        entry_steps(m, (n - 1) as nat) + (seq![LifecycleStepView::Begin(m[n - 1].0)] + steps_of(
            m[n - 1].1,
        ))
    }
}

fn list_command(a: &Vec<Json>) -> (res: Vec<LifecycleStep>)
    ensures
        steps_view(res@) == list_steps(elements(a@)),
{
    let mut out: Vec<LifecycleStep> = Vec::new();
    if a.len() == 0 {
        assert(steps_view(out@) =~= Seq::empty());
        return out;
    }
    let parts = string_items(a);
    if parts.len() == 0 {
        let step = LifecycleStep::Fail(
            BondarError::Config("Invalid lifecycle array command".to_owned()),
        );
        out.push(step);
        assert(steps_view(out@) =~= seq![step@]);
        return out;
    }
    let mut args = Texts::new();
    let ghost rest = parts@.skip(1);
    let mut i: usize = 1;
    assert(args@ =~= rest.take(0));
    while i < parts.len()
        invariant
            1 <= i <= parts@.len(),
            rest == parts@.skip(1),
            args@ == rest.take(i - 1),
        decreases parts@.len() - i,
    {
        args.arg(parts.get(i));
        assert(rest.take(i as int) =~= rest.take(i - 1).push(rest[i - 1]));
        i = i + 1;
    }
    assert(rest.take(i - 1) =~= rest);
    let step = LifecycleStep::Run(
        Command { program: parts.get(0).to_owned(), args, shell: false },
    );
    out.push(step);
    assert(steps_view(out@) =~= seq![step@]);
    out
}

/// The steps of a lifecycle command.
pub fn lifecycle_steps(value: &Json) -> (res: Vec<LifecycleStep>)
    ensures
        steps_view(res@) == steps_of(value@),
    decreases value,
{
    broadcast use group_json;

    match value {
        Json::String(s) => {
            let step = LifecycleStep::Run(
                Command { program: s.clone(), args: Texts::new(), shell: true },
            );
            let mut out: Vec<LifecycleStep> = Vec::new();
            out.push(step);
            assert(steps_view(out@) =~= seq![step@]);
            out
        },
        Json::Array(a) => list_command(a),
        Json::Object(m) => {
            let mut out: Vec<LifecycleStep> = Vec::new();
            let ghost all = members(m@);
            let mut i: usize = 0;
            assert(steps_view(out@) =~= Seq::empty());
            while i < m.len()
                invariant
                    *value == Json::Object(*m),
                    i <= m@.len(),
                    all == members(m@),
                    steps_view(out@) == entry_steps(all, i as nat),
                decreases m@.len() - i,
            {
                assert(decreases_to!(*value => value->Object_0));
                assert(decreases_to!(*m => m@));
                assert(decreases_to!(m@ => m@[i as int]));
                assert(decreases_to!(m@[i as int] => m@[i as int].1));
                assert(decreases_to!(*value => m@[i as int].1));
                assert(all[i as int] == (m@[i as int].0@, m@[i as int].1@));
                let ghost before = out@;
                let begin = LifecycleStep::Begin(m[i].0.clone());
                out.push(begin);
                assert(steps_view(out@) =~= steps_view(before).push(begin@));
                let ghost begun = out@;
                let mut inner = lifecycle_steps(&m[i].1);
                let ghost more = inner@;
                out.append(&mut inner);
                assert(steps_view(out@) =~= steps_view(begun) + steps_view(more));
                assert(steps_view(out@) =~= entry_steps(all, (i + 1) as nat));
                i = i + 1;
            }
            out
        },
        Json::Null => {
            let out: Vec<LifecycleStep> = Vec::new();
            assert(steps_view(out@) =~= Seq::empty());
            out
        },
        other => {
            let text = other.text();
            let step = LifecycleStep::Fail(
                BondarError::Config(
                    "Invalid lifecycle command type: ".to_owned().concat(text.as_str()),
                ),
            );
            let mut out: Vec<LifecycleStep> = Vec::new();
            out.push(step);
            assert(steps_view(out@) =~= seq![step@]);
            out
        },
    }
}

pub open spec fn begin_text(key: Seq<char>, background: bool) -> Seq<char> {
    if background {
        "Spawning lifecycle '"@ + key + "' in background..."@
    } else {
        "Running lifecycle '"@ + key + "'..."@
    }
}

/// The line that announces a named part of a lifecycle command.
pub fn begin_message(key: &str, background: bool) -> (res: String)
    ensures
        res@ == begin_text(key@, background),
{
    if background {
        "Spawning lifecycle '".to_owned().concat(key).concat("' in background...")
    } else {
        "Running lifecycle '".to_owned().concat(key).concat("'...")
    }
}

// ---------------------------------------------------------------------------------------------
// Scripts

/// One step of a script.
#[derive(Debug)]
pub enum ScriptStep {
    /// A line is printed.
    Say(String),
    /// A command runs, in the background where the flag says so.
    Run(Command, bool),
    /// A value is not a command.
    Fail(BondarError),
}

#[verifier::ext_equal]
pub enum ScriptStepView {
    Say(Seq<char>),
    Run(CommandView, bool),
    Fail(ErrorView),
}

impl View for ScriptStep {
    type V = ScriptStepView;

    open spec fn view(&self) -> ScriptStepView {
        match self {
            ScriptStep::Say(s) => ScriptStepView::Say(s@),
            ScriptStep::Run(c, background) => ScriptStepView::Run(c@, *background),
            ScriptStep::Fail(e) => ScriptStepView::Fail(e@),
        }
    }
}

/// The steps of lifecycle commands that are still to come.
#[derive(Debug)]
pub struct Script {
    pub steps: Vec<ScriptStep>,
}

impl View for Script {
    type V = Seq<ScriptStepView>;

    open spec fn view(&self) -> Seq<ScriptStepView> {
        Seq::new(self.steps@.len(), |i: int| self.steps@[i]@)
    }
}

/// What happens next in a script.
#[derive(Debug)]
pub enum Turn {
    Say(String),
    Run(Command, bool),
    /// The script ends with an error.
    Stop(BondarError),
    /// The script is over.
    Done,
}

#[verifier::ext_equal]
pub enum TurnView {
    Say(Seq<char>),
    Run(CommandView, bool),
    Stop(ErrorView),
    Done,
}

impl View for Turn {
    type V = TurnView;

    open spec fn view(&self) -> TurnView {
        match self {
            Turn::Say(s) => TurnView::Say(s@),
            Turn::Run(c, background) => TurnView::Run(c@, *background),
            Turn::Stop(e) => TurnView::Stop(e@),
            Turn::Done => TurnView::Done,
        }
    }
}

/// A step of a lifecycle command as a step of a script.
pub open spec fn script_step(step: LifecycleStepView, background: bool) -> ScriptStepView {
    match step {
        LifecycleStepView::Begin(key) => ScriptStepView::Say(begin_text(key, background)),
        LifecycleStepView::Run(c) => ScriptStepView::Run(c, background),
        LifecycleStepView::Fail(e) => ScriptStepView::Fail(e),
    }
}

/// What a command value adds to a script.
pub open spec fn command_script(value: JsonView, background: bool) -> Seq<ScriptStepView> {
    Seq::new(steps_of(value).len(), |i: int| script_step(steps_of(value)[i], background))
}

/// What happens next, given the steps to come and the error of the last step, if it failed: a failed
/// step is the last one.
pub open spec fn turn_of(steps: Seq<ScriptStepView>, failed: Option<ErrorView>) -> TurnView {
    match failed {
        Some(e) => TurnView::Stop(e),
        None => if steps.len() == 0 {
            TurnView::Done
        } else {
            match steps[0] {
                ScriptStepView::Say(s) => TurnView::Say(s),
                ScriptStepView::Run(c, background) => TurnView::Run(c, background),
                ScriptStepView::Fail(e) => TurnView::Stop(e),
            }
        },
    }
}

/// The steps that are still to come after that.
pub open spec fn rest_of(steps: Seq<ScriptStepView>, failed: Option<ErrorView>) -> Seq<
    ScriptStepView,
> {
    if failed is Some || steps.len() == 0 || steps[0] is Fail {
        Seq::empty()
    } else {
        steps.skip(1)
    }
}

impl Script {
    pub fn new() -> (res: Script)
        ensures
            res@ == Seq::<ScriptStepView>::empty(),
    {
        let res = Script { steps: Vec::new() };
        assert(res@ =~= Seq::<ScriptStepView>::empty());
        res
    }

    fn push(&mut self, step: ScriptStep)
        ensures
            final(self)@ == old(self)@.push(step@),
    {
        self.steps.push(step);
        assert(self@ =~= old(self)@.push(step@));
    }

    /// Adds a line that is printed.
    pub fn say(&mut self, line: String)
        ensures
            final(self)@ == old(self)@.push(ScriptStepView::Say(line@)),
    {
        self.push(ScriptStep::Say(line));
    }

    /// Adds what a command value runs.
    pub fn add_command(&mut self, value: &Json, background: bool)
        ensures
            final(self)@ == old(self)@ + command_script(value@, background),
    {
        let mut steps = lifecycle_steps(value);
        let ghost all = steps@;
        let ghost goal = command_script(value@, background);
        let ghost mut done: int = 0;
        assert(goal.take(0) =~= Seq::empty());
        assert(self@ =~= old(self)@ + goal.take(0));
        while steps.len() > 0
            invariant
                0 <= done <= all.len(),
                steps@ == all.skip(done),
                steps_view(all) == steps_of(value@),
                goal == command_script(value@, background),
                self@ == old(self)@ + goal.take(done),
            decreases steps@.len(),
        {
            let step = steps.remove(0);
            assert(step@ == steps_view(all)[done]);
            match step {
                LifecycleStep::Begin(key) => {
                    self.push(ScriptStep::Say(begin_message(key.as_str(), background)));
                },
                LifecycleStep::Run(c) => {
                    self.push(ScriptStep::Run(c, background));
                },
                LifecycleStep::Fail(e) => {
                    self.push(ScriptStep::Fail(e));
                },
            }
            proof {
                assert(goal.take(done + 1) =~= goal.take(done).push(goal[done]));
                done = done + 1;
            }
            assert(self@ =~= old(self)@ + goal.take(done));
            assert(steps@ =~= all.skip(done));
        }
        assert(goal.take(done) =~= goal);
    }

    /// What happens next, given how the last step went. After a failure nothing more runs.
    pub fn next(&mut self, last: Result<(), BondarError>) -> (res: Turn)
        ensures
            res@ == turn_of(old(self)@, failure(last)),
            final(self)@ == rest_of(old(self)@, failure(last)),
    {
        if let Err(e) = last {
            self.steps = Vec::new();
            assert(self@ =~= Seq::empty());
            return Turn::Stop(e);
        }
        if self.steps.len() == 0 {
            assert(self@ =~= Seq::empty());
            return Turn::Done;
        }
        let step = self.steps.remove(0);
        assert(step@ == old(self)@[0]);
        assert(self@ =~= old(self)@.skip(1));
        match step {
            ScriptStep::Say(line) => Turn::Say(line),
            ScriptStep::Run(c, background) => Turn::Run(c, background),
            ScriptStep::Fail(e) => {
                self.steps = Vec::new();
                assert(self@ =~= Seq::empty());
                Turn::Stop(e)
            },
        }
    }
}

// ---------------------------------------------------------------------------------------------
// Command lines

/// The command with its parts expanded.
pub open spec fn expanded_command(c: CommandView, scope: Scope) -> CommandView {
    CommandView {
        program: scope.value(c.program),
        args: Seq::new(c.args.len(), |i: int| scope.value(c.args[i])),
        shell: c.shell,
    }
}

pub open spec fn args_notes(args: Seq<Seq<char>>, scope: Scope) -> Seq<NoteView>
    decreases args.len(),
{
    if args.len() == 0 {
        Seq::empty()
    } else {
        args_notes(args.drop_last(), scope) + scope.notes(args.last())
    }
}

pub open spec fn command_notes(c: CommandView, scope: Scope) -> Seq<NoteView> {
    scope.notes(c.program) + args_notes(c.args, scope)
}

pub fn expand_command(command: &Command, scope: &Scope, notes: &mut Notes) -> (res: Command)
    ensures
        res@ == expanded_command(command@, *scope),
        final(notes)@ == old(notes)@ + command_notes(command@, *scope),
{
    let program = scope.expand(command.program.as_str(), notes);
    let ghost told = notes@;
    let ghost goal = expanded_command(command@, *scope).args;
    let mut args = Texts::new();
    let mut i: usize = 0;
    assert(args@ =~= goal.take(0));
    assert(command.args@.take(0) =~= Seq::empty());
    assert(told + no_notes() =~= told);
    while i < command.args.len()
        invariant
            i <= command.args@.len(),
            goal == expanded_command(command@, *scope).args,
            args@ == goal.take(i as int),
            notes@ == told + args_notes(command.args@.take(i as int), *scope),
        decreases command.args@.len() - i,
    {
        assert(command.args@.take(i + 1).drop_last() =~= command.args@.take(i as int));
        args.push(scope.expand(command.args.get(i), notes));
        assert(goal.take(i + 1) =~= goal.take(i as int).push(goal[i as int]));
        assert(notes@ =~= told + args_notes(command.args@.take(i + 1), *scope));
        i = i + 1;
    }
    assert(command.args@.take(i as int) =~= command.args@);
    assert(goal.take(i as int) =~= goal);
    assert(notes@ =~= old(notes)@ + command_notes(command@, *scope));
    Command { program, args, shell: command.shell }
}

/// A command as one line: the program and its arguments with spaces in between.
pub open spec fn command_line(c: CommandView) -> Seq<char> {
    if c.args.len() == 0 {
        c.program
    } else {
        c.program + " "@ + joined(c.args, " "@)
    }
}

fn one_line(c: &Command) -> (res: String)
    ensures
        res@ == command_line(c@),
{
    if c.args.len() == 0 {
        c.program.clone()
    } else {
        let rest = join(&c.args, " ");
        c.program.clone().concat(" ").concat(rest.as_str())
    }
}

/// The program that a command runs on the host, and its arguments. A line for the shell is run by
/// `sh -c`, on Windows by `cmd /C`.
pub open spec fn host_invocation(c: CommandView, windows: bool) -> Seq<Seq<char>> {
    if c.shell {
        if windows {
            seq!["cmd"@, "/C"@, command_line(c)]
        } else {
            seq!["sh"@, "-c"@, command_line(c)]
        }
    } else {
        seq![c.program] + c.args
    }
}

/// What is run on the host for a command, after it was expanded: the program and its arguments in
/// one list.
pub open spec fn host_command_plan(command: CommandView, scope: Scope, windows: bool) -> PlanView {
    let c = expanded_command(command, scope);
    told(command_notes(command, scope)).and(
        info("Executing on host: "@ + c.program + " "@ + joined(c.args, " "@)),
    ).and(words(host_invocation(c, windows)))
}

pub fn execute_on_host(command: &Command, scope: &Scope, windows: bool) -> (res: Plan)
    ensures
        res@ == host_command_plan(command@, *scope, windows),
{
    let mut plan = Plan::new();
    let expanded = expand_command(command, scope, &mut plan.notes);
    assert(plan@ =~= told(command_notes(command@, *scope)));
    let rest = join(&expanded.args, " ");
    plan.info(
        "Executing on host: ".to_owned().concat(expanded.program.as_str()).concat(" ").concat(
            rest.as_str(),
        ),
    );
    let mut invocation = Texts::new();
    if expanded.shell {
        if windows {
            invocation.arg("cmd");
            invocation.arg("/C");
        } else {
            invocation.arg("sh");
            invocation.arg("-c");
        }
        invocation.push(one_line(&expanded));
    } else {
        invocation.arg(expanded.program.as_str());
        invocation.extend(&expanded.args);
    }
    assert(invocation@ =~= host_invocation(expanded@, windows));
    plan.args(&invocation);
    plan
}

/// The error for a command that failed on the host.
pub fn host_command_failed(program: &str, code: &str) -> (res: BondarError)
    ensures
        res@ == ErrorView::Config(
            "Host command failed: "@ + program@ + " (exit "@ + code@ + ")"@,
        ),
{
    BondarError::Config(
        "Host command failed: ".to_owned().concat(program).concat(" (exit ").concat(code).concat(
            ")",
        ),
    )
}

/// The error for a command that failed in the container.
pub fn container_command_failed(program: &str, code: &str) -> (res: BondarError)
    ensures
        res@ == ErrorView::Docker(
            "Container command failed: "@ + program@ + " (exit "@ + code@ + ")"@,
        ),
{
    BondarError::Docker(
        "Container command failed: ".to_owned().concat(program).concat(" (exit ").concat(
            code,
        ).concat(")"),
    )
}

/// Variables as they are.
pub open spec fn raw_env_plan(env: Option<Seq<(Seq<char>, Seq<char>)>>) -> PlanView {
    match env {
        Some(m) => each(m, |e: (Seq<char>, Seq<char>)| option("-e"@, e.0 + "="@ + e.1)),
        None => nothing(),
    }
}

fn add_raw_env(plan: &mut Plan, env: Option<&EnvMap>)
    ensures
        final(plan)@ == old(plan)@.and(raw_env_plan(opt_map(env))),
{
    proof {
        lemma_and_nothing(plan@);
    }
    if let Some(m) = env {
        let ghost f = |e: (Seq<char>, Seq<char>)| option("-e"@, e.0 + "="@ + e.1);
        let mut i: usize = 0;
        proof {
            lemma_each_start(m@, f);
        }
        while i < m.len()
            invariant
                f == (|e: (Seq<char>, Seq<char>)| option("-e"@, e.0 + "="@ + e.1)),
                i <= m@.len(),
                plan@ == old(plan)@.and(each(m@.take(i as int), f)),
            decreases m@.len() - i,
        {
            plan.flag("-e", m.key(i).to_owned().concat("=").concat(m.value(i)));
            proof {
                lemma_each_next(m@, f, i as int);
                lemma_and_assoc(old(plan)@, each(m@.take(i as int), f), f(m@[i as int]));
            }
            i = i + 1;
        }
        proof {
            lemma_each_start(m@, f);
        }
    }
}

/// What a command runs inside the container.
pub open spec fn container_invocation(c: CommandView) -> Seq<Seq<char>> {
    if c.shell {
        seq!["sh"@, "-c"@, command_line(c)]
    } else {
        seq![c.program] + c.args
    }
}

/// The command line of `docker exec` for a lifecycle command.
pub open spec fn container_command_plan(
    c: CommandView,
    container: Seq<char>,
    user: Option<Seq<char>>,
    env: Option<Seq<(Seq<char>, Seq<char>)>>,
    scope: Scope,
) -> PlanView {
    told(command_notes(c, scope)).and(word("exec"@)).and(opt_flag("--user"@, user)).and(
        if scope.target@.len() > 0 {
            option("-w"@, scope.target@)
        } else {
            nothing()
        },
    ).and(raw_env_plan(env)).and(word(container)).and(
        words(container_invocation(expanded_command(c, scope))),
    )
}

/// Puts together `docker exec` for a lifecycle command; the scope's target is the working directory.
pub fn build_container_command(
    command: &Command,
    container_name: &str,
    user: Option<&str>,
    env: Option<&EnvMap>,
    scope: &Scope,
) -> (res: Plan)
    ensures
        res@ == container_command_plan(
            command@,
            container_name@,
            opt_str(user),
            opt_map(env),
            *scope,
        ),
{
    let mut plan = Plan::new();
    let expanded = expand_command(command, scope, &mut plan.notes);
    assert(plan@ =~= told(command_notes(command@, *scope)));
    plan.arg("exec");
    plan.opt_flag("--user", user);
    proof {
        lemma_and_nothing(plan@);
    }
    if scope.target.unicode_len() > 0 {
        plan.flag("-w", scope.target.to_owned());
    }
    add_raw_env(&mut plan, env);
    plan.arg(container_name);
    let mut invocation = Texts::new();
    if expanded.shell {
        invocation.arg("sh");
        invocation.arg("-c");
        invocation.push(one_line(&expanded));
    } else {
        invocation.arg(expanded.program.as_str());
        invocation.extend(&expanded.args);
    }
    assert(invocation@ =~= container_invocation(expanded@));
    plan.args(&invocation);
    plan
}

/// The line that announces a command that runs in the background.
pub fn spawn_message(command: &Command, container: &str) -> (res: String)
    ensures
        res@ == "Spawning in container "@ + container@ + " (background): "@ + command@.program + " "@
            + joined(command@.args, " "@),
{
    let rest = join(&command.args, " ");
    "Spawning in container ".to_owned().concat(container).concat(" (background): ").concat(
        command.program.as_str(),
    ).concat(" ").concat(rest.as_str())
}

// ---------------------------------------------------------------------------------------------
// Summary

pub open spec fn named_if(on: bool, name: Seq<char>) -> Seq<Seq<char>> {
    if on {
        seq![name]
    } else {
        Seq::empty()
    }
}

/// The lifecycle commands that a configuration has.
pub open spec fn summary_of(c: DevContainerConfig) -> Seq<Seq<char>> {
    named_if(c.initialize_command is Some, "initializeCommand"@) + named_if(
        c.on_create_command is Some,
        "onCreateCommand"@,
    ) + named_if(c.update_content_command is Some, "updateContentCommand"@) + named_if(
        c.post_create_command is Some,
        "postCreateCommand"@,
    ) + named_if(c.post_start_command is Some, "postStartCommand"@) + named_if(
        c.post_attach_command is Some,
        "postAttachCommand"@,
    )
}

pub fn lifecycle_summary(config: &DevContainerConfig) -> (res: Vec<String>)
    ensures
        texts(res@) == summary_of(*config),
{
    let mut out = Texts::new();
    if config.initialize_command.is_some() {
        out.arg("initializeCommand");
    }
    if config.on_create_command.is_some() {
        out.arg("onCreateCommand");
    }
    if config.update_content_command.is_some() {
        out.arg("updateContentCommand");
    }
    if config.post_create_command.is_some() {
        out.arg("postCreateCommand");
    }
    if config.post_start_command.is_some() {
        out.arg("postStartCommand");
    }
    if config.post_attach_command.is_some() {
        out.arg("postAttachCommand");
    }
    assert(out@ =~= summary_of(*config));
    out.items
}

// ---------------------------------------------------------------------------------------------
// Laws

/// The parts of a command run in the order in which they are declared: what an object runs is what
/// its first entries run, followed by what the others run.
pub proof fn law_parts_run_in_order(
    first: Seq<(Seq<char>, JsonView)>,
    others: Seq<(Seq<char>, JsonView)>,
)
    ensures
        steps_of(JsonView::Object(first + others)) == steps_of(JsonView::Object(first)) + steps_of(
            JsonView::Object(others),
        ),
{
    lemma_entry_steps(first, others, others.len());
}

proof fn lemma_entry_steps(
    first: Seq<(Seq<char>, JsonView)>,
    others: Seq<(Seq<char>, JsonView)>,
    n: nat,
)
    requires
        n <= others.len(),
    ensures
        entry_steps(first + others, first.len() + n) == entry_steps(first, first.len())
            + entry_steps(others, n),
    decreases n,
{
    let all = first + others;
    if n == 0 {
        lemma_entry_prefix(first, others, first.len());
        assert(entry_steps(others, 0) =~= Seq::empty());
        assert(entry_steps(first, first.len()) + Seq::<LifecycleStepView>::empty() =~= entry_steps(
            first,
            first.len(),
        ));
    } else {
        lemma_entry_steps(first, others, (n - 1) as nat);
        let at: nat = first.len() + n;
        assert((at - 1) as nat == first.len() + (n - 1) as nat);
        assert(all[at - 1] == others[n - 1]);
        let step = seq![LifecycleStepView::Begin(others[n - 1].0)] + steps_of(others[n - 1].1);
        assert(entry_steps(all, at) == entry_steps(all, (at - 1) as nat) + step);
        assert(entry_steps(others, n) == entry_steps(others, (n - 1) as nat) + step);
        assert(entry_steps(all, at) =~= entry_steps(first, first.len()) + entry_steps(others, n));
    }
}

proof fn lemma_entry_prefix(
    first: Seq<(Seq<char>, JsonView)>,
    others: Seq<(Seq<char>, JsonView)>,
    n: nat,
)
    requires
        n <= first.len(),
    ensures
        entry_steps(first + others, n) == entry_steps(first, n),
    decreases n,
{
    if n > 0 {
        lemma_entry_prefix(first, others, (n - 1) as nat);
        assert((first + others)[n - 1] == first[n - 1]);
    }
}

/// The steps to come after `n` turns, where `outcomes` says how the steps went.
pub open spec fn rest_after(
    steps: Seq<ScriptStepView>,
    outcomes: Seq<Option<ErrorView>>,
    n: nat,
) -> Seq<ScriptStepView>
    decreases n,
{
    if n == 0 {
        steps
    } else {
        rest_of(rest_after(steps, outcomes, (n - 1) as nat), outcomes[n - 1])
    }
}

/// A failure stops the script: once a step has failed, no further step is handed out. As long as
/// nothing fails, the steps come one by one in their order.
pub proof fn law_failures_stop_the_script(
    steps: Seq<ScriptStepView>,
    outcomes: Seq<Option<ErrorView>>,
    failed: int,
    n: nat,
)
    requires
        n <= outcomes.len(),
    ensures
        0 <= failed < n && outcomes[failed] is Some ==> rest_after(steps, outcomes, n).len() == 0,
        n <= steps.len() && (forall|k: int|
            0 <= k < n ==> #[trigger] outcomes[k] is None && !(steps[k] is Fail)) ==> rest_after(
            steps,
            outcomes,
            n,
        ) == steps.skip(n as int),
    decreases n,
{
    if n > 0 {
        law_failures_stop_the_script(steps, outcomes, failed, (n - 1) as nat);
        if n <= steps.len() && (forall|k: int|
            0 <= k < n ==> #[trigger] outcomes[k] is None && !(steps[k] is Fail)) {
            assert(outcomes[n - 1] is None);
            assert(steps.skip(n - 1)[0] == steps[n - 1]);
            assert(steps.skip(n - 1).skip(1) =~= steps.skip(n as int));
        }
    } else {
        assert(steps.skip(0) =~= steps);
    }
}

/// A value that holds nothing but texts, as JSON.
pub open spec fn text_list(v: Seq<Seq<char>>) -> JsonView {
    JsonView::Array(Seq::new(v.len(), |i: int| JsonView::String(v[i])))
}

proof fn lemma_strings_of_texts(v: Seq<Seq<char>>)
    ensures
        strings_of(Seq::new(v.len(), |i: int| JsonView::String(v[i]))) == v,
    decreases v.len(),
{
    let a = Seq::new(v.len(), |i: int| JsonView::String(v[i]));
    if v.len() > 0 {
        lemma_strings_of_texts(v.drop_last());
        assert(a.drop_last() =~= Seq::new(
            v.drop_last().len(),
            |i: int| JsonView::String(v.drop_last()[i]),
        ));
        assert(strings_of(a) =~= v);
    } else {
        assert(strings_of(a) =~= v);
    }
}

/// A text is one command, a line for the shell; a list of texts is one command, a program with its
/// arguments and without a shell; nothing is run for an empty list or null, and what is none of these
/// and no object is refused.
pub proof fn law_command_values(s: Seq<char>, v: Seq<Seq<char>>, other: JsonView)
    requires
        !(other is String || other is Array || other is Object || other is Null),
    ensures
        steps_of(JsonView::String(s)) == seq![
            LifecycleStepView::Run(CommandView { program: s, args: Seq::empty(), shell: true }),
        ],
        v.len() > 0 ==> steps_of(text_list(v)) == seq![
            LifecycleStepView::Run(CommandView { program: v[0], args: v.skip(1), shell: false }),
        ],
        steps_of(text_list(Seq::empty())).len() == 0,
        steps_of(JsonView::Null).len() == 0,
        steps_of(other).len() == 1 && steps_of(other)[0] is Fail,
{
    lemma_strings_of_texts(v);
}

/// Every part of an object is announced by its name before it is run, and a part that is not a command
/// is refused where its turn comes.
pub proof fn law_parts_are_announced(name: Seq<char>, value: JsonView)
    ensures
        steps_of(JsonView::Object(seq![(name, value)])) == seq![LifecycleStepView::Begin(name)]
            + steps_of(value),
{
    let m = seq![(name, value)];
    assert(entry_steps(m, 0) =~= Seq::empty());
    assert(entry_steps(m, 1) =~= seq![LifecycleStepView::Begin(name)] + steps_of(value));
}

/// The words of a command as they are run: a line for the shell by `sh -c`, a program with its
/// arguments as they are, each word expanded.
pub open spec fn runs_words(c: CommandView, scope: Scope, run: Seq<Seq<char>>) -> bool {
    let outside = |s: Seq<char>| expanded(s, *scope.workspace, scope.target@, scope.host@);
    &&& c.shell && c.args.len() == 0 ==> run == seq!["sh"@, "-c"@, outside(c.program)]
    &&& !c.shell ==> {
        &&& run.len() == 1 + c.args.len()
        &&& run[0] == outside(c.program)
        &&& forall|i: int| 0 <= i < c.args.len() ==> run[i + 1] == outside(#[trigger] c.args[i])
    }
}

/// A lifecycle command in the container is run by `docker exec`: as the given user, in the workspace's
/// folder, with the given variables as they are, and behind the name of the container the words of the
/// command.
pub proof fn law_container_command(
    c: CommandView,
    container: Seq<char>,
    user: Option<Seq<char>>,
    env: Option<Seq<(Seq<char>, Seq<char>)>>,
    scope: Scope,
)
    ensures
        ({
            let args = container_command_plan(c, container, user, env, scope).args;
            let run = container_invocation(expanded_command(c, scope));
            let k = args.len() - run.len();
            let front = args.take(k - 1);
            &&& k >= 2
            &&& args.skip(k) == run && runs_words(c, scope, run)
            &&& args[k - 1] == container
            &&& args[0] == "exec"@
            &&& user matches Some(u) ==> pair_at(args, "--user"@, u, 1)
            &&& scope.target@.len() > 0 ==> has_pair(front, "-w"@, scope.target@)
            &&& env matches Some(m) ==> forall|i: int|
                0 <= i < m.len() ==> has_pair(front, "-e"@, (#[trigger] m[i]).0 + "="@ + m[i].1)
            &&& k == 2 + (if user is Some {
                2int
            } else {
                0int
            }) + (if scope.target@.len() > 0 {
                2int
            } else {
                0int
            }) + (match env {
                Some(m) => 2 * m.len() as int,
                None => 0int,
            })
        }),
{
    broadcast use group_plans;

    let args = container_command_plan(c, container, user, env, scope).args;
    let run = container_invocation(expanded_command(c, scope));
    let start = told(command_notes(c, scope)).and(word("exec"@)).and(opt_flag("--user"@, user));
    let at = if scope.target@.len() > 0 {
        option("-w"@, scope.target@)
    } else {
        nothing()
    };
    let front = start.and(at).and(raw_env_plan(env));
    assert(args =~= front.args.push(container) + run);
    let k = args.len() - run.len();
    assert(args.skip(k) =~= run);
    assert(args.take(k - 1) =~= front.args);
    if let Some(u) = user {
        assert(pair_at(start.args, "--user"@, u, 1));
    }
    if let Some(m) = env {
        let f = |e: (Seq<char>, Seq<char>)| option("-e"@, e.0 + "="@ + e.1);
        lemma_each_len(m, f, 2);
        assert forall|i: int| 0 <= i < m.len() implies has_pair(
            front.args,
            "-e"@,
            (#[trigger] m[i]).0 + "="@ + m[i].1,
        ) by {
            lemma_each_pair(m, f, i, "-e"@, m[i].0 + "="@ + m[i].1);
        }
    }
}

/// A lifecycle command on the host is run with the same words as in the container; on Windows a line
/// for the shell goes to `cmd /C`.
pub proof fn law_host_command(c: CommandView, scope: Scope)
    ensures
        runs_words(c, scope, host_command_plan(c, scope, false).args),
        host_command_plan(c, scope, false).args == container_invocation(expanded_command(c, scope)),
        !c.shell ==> host_command_plan(c, scope, true).args == host_command_plan(
            c,
            scope,
            false,
        ).args,
        c.shell && c.args.len() == 0 ==> host_command_plan(c, scope, true).args == seq![
            "cmd"@,
            "/C"@,
            expanded(c.program, *scope.workspace, scope.target@, scope.host@),
        ],
{
    let d = expanded_command(c, scope);
    assert(host_command_plan(c, scope, false).args =~= host_invocation(d, false));
    assert(host_command_plan(c, scope, true).args =~= host_invocation(d, true));
}

/// The summary names exactly the lifecycle commands that the configuration sets, in the order in which
/// they run.
pub proof fn law_summary(c: DevContainerConfig)
    ensures
        ({
            let v = summary_of(c);
            let set = |o: Option<Json>| if o is Some {
                1int
            } else {
                0int
            };
            &&& c.initialize_command is Some ==> v.contains("initializeCommand"@) && v[0]
                == "initializeCommand"@
            &&& c.on_create_command is Some ==> v.contains("onCreateCommand"@)
            &&& c.update_content_command is Some ==> v.contains("updateContentCommand"@)
            &&& c.post_create_command is Some ==> v.contains("postCreateCommand"@)
            &&& c.post_start_command is Some ==> v.contains("postStartCommand"@)
            &&& c.post_attach_command is Some ==> v.contains("postAttachCommand"@) && v.last()
                == "postAttachCommand"@
            &&& v.len() == set(c.initialize_command) + set(c.on_create_command) + set(
                c.update_content_command,
            ) + set(c.post_create_command) + set(c.post_start_command) + set(c.post_attach_command)
        }),
{
    let v = summary_of(c);
    let a = named_if(c.initialize_command is Some, "initializeCommand"@);
    let b = named_if(c.on_create_command is Some, "onCreateCommand"@);
    let d = named_if(c.update_content_command is Some, "updateContentCommand"@);
    let e = named_if(c.post_create_command is Some, "postCreateCommand"@);
    let f = named_if(c.post_start_command is Some, "postStartCommand"@);
    let g = named_if(c.post_attach_command is Some, "postAttachCommand"@);
    let k = a.len() as int;
    if c.initialize_command is Some {
        assert(v[0] == "initializeCommand"@);
    }
    if c.on_create_command is Some {
        assert(v[k] == "onCreateCommand"@);
    }
    let k = k + b.len();
    if c.update_content_command is Some {
        assert(v[k] == "updateContentCommand"@);
    }
    let k = k + d.len();
    if c.post_create_command is Some {
        assert(v[k] == "postCreateCommand"@);
    }
    let k = k + e.len();
    if c.post_start_command is Some {
        assert(v[k] == "postStartCommand"@);
    }
    let k = k + f.len();
    if c.post_attach_command is Some {
        assert(v[k] == "postAttachCommand"@);
    }
}

/// A command is told as a line with its program and its arguments, with blanks between them.
pub proof fn law_command_lines(c: CommandView, x: Seq<char>)
    ensures
        c.args.len() == 0 ==> command_line(c) == c.program,
        command_line(CommandView { args: c.args.push(x), ..c }) == command_line(c) + " "@ + x,
{
    assert(c.args.push(x).drop_last() =~= c.args);
    let d = CommandView { args: c.args.push(x), ..c };
    if c.args.len() > 0 {
        assert(c.program + " "@ + (joined(c.args, " "@) + " "@ + x) =~= (c.program + " "@ + joined(
            c.args,
            " "@,
        )) + " "@ + x);
    }
}

/// A script is worked through step by step: a failure stops it, what is to be said is said, what is to
/// be run is run, and it is done when nothing is left. Parts are announced by their name, those in the
/// background as such.
pub proof fn law_turns(
    first: ScriptStepView,
    rest: Seq<ScriptStepView>,
    e: ErrorView,
    line: Seq<char>,
    c: CommandView,
    background: bool,
)
    ensures
        turn_of(seq![first] + rest, Some(e)) == TurnView::Stop(e),
        turn_of(Seq::empty(), None) is Done,
        first == ScriptStepView::Say(line) ==> turn_of(seq![first] + rest, None) == TurnView::Say(
            line,
        ) && rest_of(seq![first] + rest, None) == rest,
        first == ScriptStepView::Run(c, background) ==> turn_of(seq![first] + rest, None)
            == TurnView::Run(c, background) && rest_of(seq![first] + rest, None) == rest,
        first == ScriptStepView::Fail(e) ==> turn_of(seq![first] + rest, None) == TurnView::Stop(e)
            && rest_of(seq![first] + rest, None).len() == 0,
        rest_of(seq![first] + rest, Some(e)).len() == 0,
        begin_text(line, false) == "Running lifecycle '"@ + line + "'..."@,
        begin_text(line, true) == "Spawning lifecycle '"@ + line + "' in background..."@,
{
    assert((seq![first] + rest).skip(1) =~= rest);
}

} // verus!
