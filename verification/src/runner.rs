//! The Dialog Runner: walks the loaded node graph one line at a time,
//! producing one `DialogEvent` per call, honoring conditional branching,
//! variable state, jumps, and external commands.
//!
//! The behaviour of `next_event` is specified by `walk`, a fuel-indexed
//! interpreter over the graph's view: starting from the cursor, `walk`
//! applies set lines to the variable map, records command invocations,
//! follows jumps, and stops at the first dialog line, option line or node
//! end, yielding the event, the new cursor and state, the new variable
//! map, and the recorded commands.

use vstd::prelude::*;

use crate::components::{CondV, LineType, LineV, NodeV, OptionPossibility, PossV, Tag,
    YarnSpinnerNode, graph_view, graph_wf, opt_cond_view};
use crate::context::StateContext;
use crate::errors::DialogRunnerError;
use crate::registry::{CommandCallV, CommandRegistry};
use crate::resolve::title_exists;
use crate::runner_state::{DialogEvent, DialogOption, DialogOptionV, DialogState, EventV};
use crate::textscan::str_eq;

verus! {

// ---------------------------------------------------------------------------
// Condition evaluation and option filtering
// ---------------------------------------------------------------------------

/// Whether a possibility guarded by `cond` is visible under `vars`: no
/// guard is always visible, and a guard on an unset variable never is.
pub open spec fn passes(cond: Option<CondV>, vars: Map<Seq<char>, bool>) -> bool {
    match cond {
        None => true,
        Some(c) => if !vars.contains_key(c.variable_name) {
            false
        } else {
            match c.condition {
                crate::components::ConditionType::Equal => vars[c.variable_name] == c.value,
                crate::components::ConditionType::NotEqual => vars[c.variable_name] != c.value,
            }
        },
    }
}

/// The option a visible possibility presents to the caller.
pub open spec fn option_of(p: PossV) -> DialogOptionV {
    DialogOptionV { text: p.text, node: p.jump_to_node_title, used: p.used }
}

/// The possibilities whose guards pass under `vars`, in order.
pub open spec fn visible_options(poss: Seq<PossV>, vars: Map<Seq<char>, bool>) -> Seq<
    DialogOptionV,
>
    decreases poss.len(),
{
    if poss.len() == 0 {
        Seq::empty()
    } else {
        let rest = visible_options(poss.drop_first(), vars);
        if passes(poss.first().condition, vars) {
            seq![option_of(poss.first())] + rest
        } else {
            rest
        }
    }
}

// ---------------------------------------------------------------------------
// The walk: what one call to `next_event` does
// ---------------------------------------------------------------------------

/// A finished walk: the event to return, the new state and cursor, the new
/// variable map, and the commands recorded along the way.
pub struct WalkEmit {
    pub event: EventV,
    pub state: DialogState,
    pub node: int,
    pub line: int,
    pub vars: Map<Seq<char>, bool>,
    pub cmds: Seq<CommandCallV>,
}

pub enum WalkResult {
    /// The fuel ran out before any event was reached.
    Stuck,
    /// The walk reached an event.
    Emits(WalkEmit),
    /// The walk reached a command whose name is not registered; the cursor
    /// stands on that command line.
    CmdErr {
        func_name: Seq<char>,
        node: int,
        line: int,
        vars: Map<Seq<char>, bool>,
        cmds: Seq<CommandCallV>,
    },
}

/// Prefixes the commands already recorded before a partial walk.
pub open spec fn prepend_cmds(cs: Seq<CommandCallV>, w: WalkResult) -> WalkResult {
    match w {
        WalkResult::Stuck => WalkResult::Stuck,
        WalkResult::Emits(e) => WalkResult::Emits(WalkEmit { cmds: cs + e.cmds, ..e }),
        WalkResult::CmdErr { func_name, node, line, vars, cmds } => WalkResult::CmdErr {
            func_name,
            node,
            line,
            vars,
            cmds: cs + cmds,
        },
    }
}

/// The transition function of the runner, from a cursor position: applies
/// set lines, records or refuses commands, follows jumps, and emits at the
/// first dialog line, option line or node end.  `fuel` bounds the number
/// of lines processed; a walk that runs out is `Stuck`.
pub open spec fn walk(
    g: Seq<NodeV>,
    node: int,
    line: int,
    vars: Map<Seq<char>, bool>,
    known: Set<Seq<char>>,
    fuel: nat,
) -> WalkResult
    decreases fuel,
{
    if fuel == 0 {
        WalkResult::Stuck
    } else if line >= g[node].lines.len() {
        WalkResult::Emits(
            WalkEmit {
                event: EventV::End,
                state: DialogState::End,
                node,
                line,
                vars,
                cmds: Seq::empty(),
            },
        )
    } else {
        match g[node].lines[line] {
            LineV::SetLine { variable_name, value } => walk(
                g,
                node,
                line + 1,
                vars.insert(variable_name, value),
                known,
                (fuel - 1) as nat,
            ),
            LineV::CommandLine { func_name, args } => if !known.contains(func_name) {
                WalkResult::CmdErr { func_name, node, line, vars, cmds: Seq::empty() }
            } else {
                prepend_cmds(
                    seq![CommandCallV { func_name, args }],
                    walk(g, node, line + 1, vars, known, (fuel - 1) as nat),
                )
            },
            LineV::JumpLine { node_title: _, node: target } => walk(
                g,
                target,
                0,
                vars,
                known,
                (fuel - 1) as nat,
            ),
            LineV::DialogLine { speaker, text, tags } => WalkResult::Emits(
                WalkEmit {
                    event: EventV::Dialog { speaker, text, tags },
                    state: if line + 1 >= g[node].lines.len() {
                        DialogState::End
                    } else {
                        DialogState::Dialog
                    },
                    node,
                    line: line + 1,
                    vars,
                    cmds: Seq::empty(),
                },
            ),
            LineV::OptionLine { speaker, possibilities } => WalkResult::Emits(
                WalkEmit {
                    event: EventV::Options {
                        speaker,
                        options: visible_options(possibilities, vars),
                    },
                    state: DialogState::Waiting,
                    node,
                    line,
                    vars,
                    cmds: Seq::empty(),
                },
            ),
        }
    }
}

/// More fuel never changes a finished walk.
pub proof fn lemma_walk_fuel_mono(
    g: Seq<NodeV>,
    node: int,
    line: int,
    vars: Map<Seq<char>, bool>,
    known: Set<Seq<char>>,
    f1: nat,
    f2: nat,
)
    requires
        !(walk(g, node, line, vars, known, f1) is Stuck),
        f1 <= f2,
    ensures
        walk(g, node, line, vars, known, f2) == walk(g, node, line, vars, known, f1),
    decreases f1,
{
    if line < g[node].lines.len() {
        match g[node].lines[line] {
            LineV::SetLine { variable_name, value } => {
                lemma_walk_fuel_mono(
                    g,
                    node,
                    line + 1,
                    vars.insert(variable_name, value),
                    known,
                    (f1 - 1) as nat,
                    (f2 - 1) as nat,
                );
            },
            LineV::CommandLine { func_name, args } => {
                if known.contains(func_name) {
                    lemma_walk_fuel_mono(
                        g,
                        node,
                        line + 1,
                        vars,
                        known,
                        (f1 - 1) as nat,
                        (f2 - 1) as nat,
                    );
                }
            },
            LineV::JumpLine { node_title: _, node: target } => {
                lemma_walk_fuel_mono(g, target, 0, vars, known, (f1 - 1) as nat, (f2 - 1) as nat);
            },
            _ => {},
        }
    }
}

// ---------------------------------------------------------------------------
// The runner
// ---------------------------------------------------------------------------

/// The runner owns the resolved node graph, a cursor into it, and the
/// state machine state.
pub struct DialogRunner {
    nodes: Vec<YarnSpinnerNode>,
    current_node: usize,
    current_line_index: usize,
    dialog_state: DialogState,
}

impl DialogRunner {
    /// The owned graph, as its view.
    pub closed spec fn graph(&self) -> Seq<NodeV> {
        graph_view(self.nodes@)
    }

    /// The cursor's node index.
    pub closed spec fn cur_node(&self) -> int {
        self.current_node as int
    }

    /// The cursor's line index.
    pub closed spec fn cur_line(&self) -> int {
        self.current_line_index as int
    }

    /// The state machine state.
    pub closed spec fn state(&self) -> DialogState {
        self.dialog_state
    }

    /// The runner invariant: the graph is well-formed, and the cursor is a
    /// valid position whenever the state is not terminal — standing on an
    /// option line whenever the runner waits for a decision.
    pub open spec fn wf(&self) -> bool {
        &&& graph_wf(self.graph())
        &&& self.state() != DialogState::End ==> 0 <= self.cur_node() < self.graph().len() && 0
            <= self.cur_line() < self.graph()[self.cur_node()].lines.len()
        &&& self.state() == DialogState::Waiting ==> self.graph()[self.cur_node()].lines[self.cur_line()] is OptionLine
    }

    /// The state machine state, for the caller.
    pub fn current_state(&self) -> (r: DialogState)
        ensures
            r == self.state(),
    {
        self.dialog_state
    }

    /// The first node carrying `title`, if any.
    fn find_node(nodes: &Vec<YarnSpinnerNode>, title: &str) -> (r: Option<usize>)
        ensures
            match r {
                Some(ix) => ix < nodes@.len() && graph_view(nodes@)[ix as int].title == title@
                    && forall|j: int|
                    0 <= j < ix ==> graph_view(nodes@)[j].title != title@,
                None => !title_exists(graph_view(nodes@), title@),
            },
    {
        let mut i: usize = 0;
        while i < nodes.len()
            invariant
                i <= nodes@.len(),
                forall|j: int| 0 <= j < i ==> graph_view(nodes@)[j].title != title@,
            decreases nodes@.len() - i,
        {
            if str_eq(nodes[i].title.as_str(), title) {
                return Some(i);
            }
            i += 1;
        }
        None
    }

    /// Builds a runner over `nodes`, positioned at line 0 of the node
    /// carrying `start_node_title`, in the `Start` state; fails exactly
    /// when no node carries that title.
    pub fn create_from_nodes(nodes: Vec<YarnSpinnerNode>, start_node_title: &str) -> (r: Result<
        DialogRunner,
        DialogRunnerError,
    >)
        requires
            graph_wf(graph_view(nodes@)),
        ensures
            match r {
                Ok(runner) => {
                    &&& runner.wf()
                    &&& runner.graph() == graph_view(nodes@)
                    &&& runner.state() == DialogState::Start
                    &&& runner.cur_line() == 0
                    &&& 0 <= runner.cur_node() < runner.graph().len()
                    &&& runner.graph()[runner.cur_node()].title == start_node_title@
                },
                Err(e) => e matches DialogRunnerError::StartingNodeNotFound { node_name }
                    && node_name@ == start_node_title@ && !title_exists(
                    graph_view(nodes@),
                    start_node_title@,
                ),
            },
    {
        match Self::find_node(&nodes, start_node_title) {
            Some(ix) => Ok(
                DialogRunner {
                    nodes,
                    current_node: ix,
                    current_line_index: 0,
                    dialog_state: DialogState::Start,
                },
            ),
            None => Err(
                DialogRunnerError::StartingNodeNotFound {
                    node_name: String::from_str(start_node_title),
                },
            ),
        }
    }

    /// Unconditionally repositions the cursor to line 0 of the node
    /// carrying `node_title` and resets the state to `Start`; fails, with
    /// the runner unchanged, exactly when no node carries that title.
    pub fn reset_to(&mut self, node_title: &str) -> (r: Result<(), DialogRunnerError>)
        requires
            old(self).wf(),
        ensures
            final(self).wf(),
            final(self).graph() == old(self).graph(),
            match r {
                Ok(()) => {
                    &&& final(self).state() == DialogState::Start
                    &&& final(self).cur_line() == 0
                    &&& 0 <= final(self).cur_node() < final(self).graph().len()
                    &&& final(self).graph()[final(self).cur_node()].title == node_title@
                },
                Err(e) => e matches DialogRunnerError::StartingNodeNotFound { node_name }
                    && node_name@ == node_title@ && !title_exists(old(self).graph(), node_title@)
                    && *final(self) == *old(self),
            },
    {
        match Self::find_node(&self.nodes, node_title) {
            Some(ix) => {
                self.current_node = ix;
                self.current_line_index = 0;
                self.dialog_state = DialogState::Start;
                Ok(())
            },
            None => Err(
                DialogRunnerError::StartingNodeNotFound {
                    node_name: String::from_str(node_title),
                },
            ),
        }
    }
}

/// The total number of cursor positions of the graph, counting each
/// node's one-past-the-end position.
pub open spec fn sum_positions(g: Seq<NodeV>) -> nat
    decreases g.len(),
{
    if g.len() == 0 {
        0nat
    } else {
        sum_positions(g.drop_last()) + g.last().lines.len() + 1
    }
}

proof fn lemma_prepend_empty(w: WalkResult)
    ensures
        prepend_cmds(Seq::empty(), w) == w,
{
    match w {
        WalkResult::Stuck => {},
        WalkResult::Emits(e) => {
            assert(Seq::empty() + e.cmds =~= e.cmds);
        },
        WalkResult::CmdErr { cmds, .. } => {
            assert(Seq::empty() + cmds =~= cmds);
        },
    }
}

proof fn lemma_prepend_compose(a: Seq<CommandCallV>, b: Seq<CommandCallV>, w: WalkResult)
    ensures
        prepend_cmds(a, prepend_cmds(b, w)) == prepend_cmds(a + b, w),
{
    match w {
        WalkResult::Stuck => {},
        WalkResult::Emits(e) => {
            assert(a + (b + e.cmds) =~= (a + b) + e.cmds);
        },
        WalkResult::CmdErr { cmds, .. } => {
            assert(a + (b + cmds) =~= (a + b) + cmds);
        },
    }
}

/// Clones the tag list of a dialog line.
fn clone_tags(tags: &Vec<Tag>) -> (r: Vec<Tag>)
    ensures
        r@.map_values(|t: Tag| t@) == tags@.map_values(|t: Tag| t@),
{
    let mut r: Vec<Tag> = Vec::new();
    let mut i: usize = 0;
    while i < tags.len()
        invariant
            i <= tags@.len(),
            r@.len() == i,
            forall|j: int| 0 <= j < i ==> (#[trigger] r@[j])@ == tags@[j]@,
        decreases tags@.len() - i,
    {
        let t = &tags[i];
        r.push(Tag { name: t.name.clone(), value: t.value.clone() });
        i += 1;
    }
    proof {
        assert(r@.map_values(|t: Tag| t@) =~= tags@.map_values(|t: Tag| t@));
    }
    r
}

impl DialogRunner {
    /// Whether the guard of `possibility`, if any, passes against the
    /// State Context; a guard on an unset variable never does.
    fn passes_condition<T: StateContext>(possibility: &OptionPossibility, context: &T) -> (r:
        bool)
        ensures
            r == passes(opt_cond_view(possibility.condition), context.vars()),
            possibility.condition is Some && !context.vars().contains_key(
                possibility.condition->0.variable_name@,
            ) ==> r == false,
    {
        match &possibility.condition {
            Some(condition) => match context.get_value(condition.variable_name.as_str()) {
                Some(value) => match condition.condition {
                    crate::components::ConditionType::Equal => value == condition.value,
                    crate::components::ConditionType::NotEqual => value != condition.value,
                },
                None => false,
            },
            None => true,
        }
    }

    /// The options visible under the current variable state, in order.
    fn build_options<T: StateContext>(
        possibilities: &Vec<OptionPossibility>,
        context: &T,
    ) -> (r: Vec<DialogOption>)
        ensures
            r@.map_values(|o: DialogOption| o@) == visible_options(
                possibilities@.map_values(|p: OptionPossibility| p@),
                context.vars(),
            ),
    {
        let ghost pv = possibilities@.map_values(|p: OptionPossibility| p@);
        let ghost vars = context.vars();
        let mut r: Vec<DialogOption> = Vec::new();
        let mut q: usize = 0;
        proof {
            assert(pv.skip(0) =~= pv);
            assert(r@.map_values(|o: DialogOption| o@) + visible_options(pv.skip(0), vars)
                =~= visible_options(pv, vars));
        }
        while q < possibilities.len()
            invariant
                q <= pv.len(),
                pv == possibilities@.map_values(|p: OptionPossibility| p@),
                vars == context.vars(),
                visible_options(pv, vars) == r@.map_values(|o: DialogOption| o@)
                    + visible_options(pv.skip(q as int), vars),
            decreases pv.len() - q,
        {
            let ghost rv = r@.map_values(|o: DialogOption| o@);
            proof {
                assert(pv.skip(q as int).first() == pv[q as int]);
                assert(pv.skip(q as int).drop_first() =~= pv.skip(q + 1));
            }
            let p = &possibilities[q];
            if Self::passes_condition(p, context) {
                let o = DialogOption {
                    text: p.text.clone(),
                    node: p.jump_to_node_title.clone(),
                    used: p.used,
                };
                proof {
                    assert(o@ == option_of(pv[q as int]));
                }
                r.push(o);
                proof {
                    assert(r@.map_values(|o: DialogOption| o@) =~= rv.push(o@));
                    assert(rv.push(o@) + visible_options(pv.skip(q + 1), vars) =~= rv + (seq![
                        option_of(pv[q as int]),
                    ] + visible_options(pv.skip(q + 1), vars)));
                }
            }
            q += 1;
        }
        proof {
            assert(visible_options(pv.skip(pv.len() as int), vars) =~= Seq::<
                DialogOptionV,
            >::empty());
            assert(r@.map_values(|o: DialogOption| o@) =~= visible_options(pv, vars));
        }
        r
    }

    /// One more step than the graph has cursor positions: a walk that does
    /// not finish within this budget revisits a position without emitting
    /// and can never finish.
    fn compute_budget(nodes: &Vec<YarnSpinnerNode>) -> (r: u128)
        ensures
            r == 1 + sum_positions(graph_view(nodes@)),
    {
        let ghost g = graph_view(nodes@);
        let mut b: u128 = 1;
        let mut i: usize = 0;
        proof {
            assert(g.take(0) =~= Seq::<NodeV>::empty());
        }
        while i < nodes.len()
            invariant
                i <= nodes@.len(),
                g == graph_view(nodes@),
                b == 1 + sum_positions(g.take(i as int)),
                b <= 1 + (i as int) * 0x10000000000000000,
            decreases nodes@.len() - i,
        {
            let n = nodes[i].lines.len();
            proof {
                assert(g.take(i + 1).drop_last() =~= g.take(i as int));
                assert(g.take(i + 1).last() == g[i as int]);
                assert(g[i as int].lines.len() == nodes@[i as int].lines@.len());
                assert(n as u128 + 1 <= 0x10000000000000000);
            }
            b = b + (n as u128 + 1);
            i += 1;
        }
        proof {
            assert(g.take(i as int) =~= g);
        }
        b
    }

    /// Produces the next dialog event.
    ///
    /// In `Waiting` and `End` the same event is returned again with no
    /// mutation at all.  Otherwise the runner performs one `walk` from the
    /// cursor: set lines update the State Context, command lines are
    /// recorded in the registry, jumps move the cursor, and the first
    /// dialog line, option line or node end yields the event and the new
    /// state.  A command line whose name is not registered stops the walk
    /// with `UnregisteredCommand`, the cursor left on that line.  A walk
    /// that exhausts one step per cursor position cycles through control
    /// lines forever; it ends the dialog with `EndlessLoop`.
    #[verifier::loop_isolation(false)]
    pub fn next_event<T: StateContext>(
        &mut self,
        context: &mut T,
        registry: &mut CommandRegistry,
    ) -> (r: Result<DialogEvent, DialogRunnerError>)
        requires
            old(self).wf(),
        ensures
            final(self).wf(),
            final(self).graph() == old(self).graph(),
            final(registry).known() == old(registry).known(),
            old(self).state() == DialogState::Waiting ==> r == Ok::<
                DialogEvent,
                DialogRunnerError,
            >(DialogEvent::Waiting) && *final(self) == *old(self) && final(context).vars() == old(
                context,
            ).vars() && *final(registry) == *old(registry),
            old(self).state() == DialogState::End ==> r == Ok::<DialogEvent, DialogRunnerError>(
                DialogEvent::End,
            ) && *final(self) == *old(self) && final(context).vars() == old(context).vars()
                && *final(registry) == *old(registry),
            old(self).state() == DialogState::Start || old(self).state() == DialogState::Dialog
                ==> match r {
                Ok(e) => exists|fuel: nat|
                    (#[trigger] walk(
                        old(self).graph(),
                        old(self).cur_node(),
                        old(self).cur_line(),
                        old(context).vars(),
                        old(registry).known(),
                        fuel,
                    )) matches WalkResult::Emits(em) && em.event == e@ && final(self).state()
                        == em.state && final(self).cur_node() == em.node && final(self).cur_line()
                        == em.line && final(context).vars() == em.vars && final(registry).calls()
                        == old(registry).calls() + em.cmds,
                Err(er) => match er {
                    DialogRunnerError::UnregisteredCommand { func_name } => exists|fuel: nat|
                        (#[trigger] walk(
                            old(self).graph(),
                            old(self).cur_node(),
                            old(self).cur_line(),
                            old(context).vars(),
                            old(registry).known(),
                            fuel,
                        )) matches WalkResult::CmdErr { func_name: f2, node, line, vars, cmds }
                            && f2 == func_name@ && final(self).state() == old(self).state()
                            && final(self).cur_node() == node && final(self).cur_line() == line
                            && final(context).vars() == vars && final(registry).calls() == old(
                            registry,
                        ).calls() + cmds,
                    DialogRunnerError::EndlessLoop => (forall|f: nat|
                        (#[trigger] walk(
                            old(self).graph(),
                            old(self).cur_node(),
                            old(self).cur_line(),
                            old(context).vars(),
                            old(registry).known(),
                            f,
                        )) is Stuck) && final(self).state() == DialogState::End,
                    _ => false,
                },
            },
    {
        match self.dialog_state {
            DialogState::Waiting => {
                return Ok(DialogEvent::Waiting);
            },
            DialogState::End => {
                return Ok(DialogEvent::End);
            },
            _ => {},
        }
        let ghost g = self.graph();
        let ghost n0 = self.cur_node();
        let ghost l0 = self.cur_line();
        let ghost v0 = context.vars();
        let ghost k0 = registry.known();
        let ghost calls0 = registry.calls();
        let budget = Self::compute_budget(&self.nodes);
        let mut cn: usize = self.current_node;
        let mut cl: usize = self.current_line_index;
        let mut steps: u128 = 0;
        let ghost mut cmds_done: Seq<CommandCallV> = Seq::empty();
        proof {
            assert forall|f: nat|
                walk(g, n0, l0, v0, k0, steps as nat + f) == prepend_cmds(
                    cmds_done,
                    walk(g, cn as int, cl as int, context.vars(), k0, f),
                ) by {
                lemma_prepend_empty(walk(g, cn as int, cl as int, context.vars(), k0, f));
            }
        }
        while steps < budget
            invariant
                *self == *old(self),
                0 <= cn < g.len(),
                0 <= cl <= g[cn as int].lines.len(),
                steps <= budget,
                registry.known() == k0,
                registry.calls() == calls0 + cmds_done,
                forall|f: nat|
                    walk(g, n0, l0, v0, k0, steps as nat + f) == prepend_cmds(
                        cmds_done,
                        walk(g, cn as int, cl as int, context.vars(), k0, f),
                    ),
            decreases budget - steps,
        {
            let ghost v_old = context.vars();
            let ghost cmds_old = cmds_done;
            let ghost cn_old = cn as int;
            let ghost cl_old = cl as int;
            proof {
                assert(g[cn as int] == self.nodes@[cn as int]@);
            }
            if cl >= self.nodes[cn].lines.len() {
                // End of node: the End event, with the state now terminal.
                self.current_node = cn;
                self.current_line_index = cl;
                self.dialog_state = DialogState::End;
                proof {
                    assert(walk(g, cn_old, cl_old, v_old, k0, 1) matches WalkResult::Emits(em)
                        && em.event == EventV::End);
                    assert(cmds_old + Seq::<CommandCallV>::empty() =~= cmds_old);
                    assert(walk(g, n0, l0, v0, k0, steps as nat + 1) matches WalkResult::Emits(
                        em,
                    ) && em.event == EventV::End && em.state == DialogState::End && em.node
                        == cn_old && em.line == cl_old && em.vars == context.vars() && em.cmds
                        == cmds_old);
                }
                return Ok(DialogEvent::End);
            }
            let line_ref = &self.nodes[cn].lines[cl];
            proof {
                assert(g[cn as int].lines[cl as int] == line_ref@);
            }
            match line_ref {
                LineType::SetLine { variable_name, value } => {
                    context.set_value(variable_name.as_str(), *value);
                    cl = cl + 1;
                    proof {
                        assert forall|f: nat|
                            walk(g, n0, l0, v0, k0, (steps + 1) as nat + f) == prepend_cmds(
                                cmds_done,
                                walk(g, cn as int, cl as int, context.vars(), k0, f),
                            ) by {
                            assert(walk(g, n0, l0, v0, k0, steps as nat + (f + 1))
                                == prepend_cmds(
                                cmds_old,
                                walk(g, cn_old, cl_old, v_old, k0, f + 1),
                            ));
                            assert(walk(g, cn_old, cl_old, v_old, k0, f + 1) == walk(
                                g,
                                cn as int,
                                cl as int,
                                context.vars(),
                                k0,
                                f,
                            ));
                        }
                    }
                },
                LineType::CommandLine { func_name, args } => {
                    let ok = registry.invoke(func_name, args);
                    if !ok {
                        self.current_node = cn;
                        self.current_line_index = cl;
                        proof {
                            assert(walk(g, cn_old, cl_old, v_old, k0, 1)
                                matches WalkResult::CmdErr { func_name: f2, .. } && f2
                                == func_name@);
                            assert(cmds_old + Seq::<CommandCallV>::empty() =~= cmds_old);
                            assert(walk(g, n0, l0, v0, k0, steps as nat + 1)
                                matches WalkResult::CmdErr { func_name: f2, node, line, vars, cmds }
                                && f2 == func_name@ && node == cn_old && line == cl_old && vars
                                == context.vars() && cmds == cmds_old);
                        }
                        return Err(
                            DialogRunnerError::UnregisteredCommand {
                                func_name: func_name.clone(),
                            },
                        );
                    }
                    let ghost call = CommandCallV {
                        func_name: func_name@,
                        args: args@.map_values(|a: String| a@),
                    };
                    proof {
                        cmds_done = cmds_done + seq![call];
                        assert(calls0 + cmds_done =~= (calls0 + cmds_old).push(call));
                    }
                    cl = cl + 1;
                    proof {
                        assert forall|f: nat|
                            walk(g, n0, l0, v0, k0, (steps + 1) as nat + f) == prepend_cmds(
                                cmds_done,
                                walk(g, cn as int, cl as int, context.vars(), k0, f),
                            ) by {
                            assert(walk(g, n0, l0, v0, k0, steps as nat + (f + 1))
                                == prepend_cmds(
                                cmds_old,
                                walk(g, cn_old, cl_old, v_old, k0, f + 1),
                            ));
                            assert(walk(g, cn_old, cl_old, v_old, k0, f + 1) == prepend_cmds(
                                seq![call],
                                walk(g, cn as int, cl as int, context.vars(), k0, f),
                            ));
                            lemma_prepend_compose(
                                cmds_old,
                                seq![call],
                                walk(g, cn as int, cl as int, context.vars(), k0, f),
                            );
                            assert(cmds_old + seq![call] =~= cmds_done);
                        }
                    }
                },
                LineType::JumpLine { node_title: _, node: target } => {
                    let t = *target;
                    proof {
                        assert(crate::components::node_resolved(g, g[cn as int]));
                        assert(0 <= t < g.len());
                    }
                    cn = t;
                    cl = 0;
                    proof {
                        assert forall|f: nat|
                            walk(g, n0, l0, v0, k0, (steps + 1) as nat + f) == prepend_cmds(
                                cmds_done,
                                walk(g, cn as int, cl as int, context.vars(), k0, f),
                            ) by {
                            assert(walk(g, n0, l0, v0, k0, steps as nat + (f + 1))
                                == prepend_cmds(
                                cmds_old,
                                walk(g, cn_old, cl_old, v_old, k0, f + 1),
                            ));
                            assert(walk(g, cn_old, cl_old, v_old, k0, f + 1) == walk(
                                g,
                                cn as int,
                                cl as int,
                                context.vars(),
                                k0,
                                f,
                            ));
                        }
                    }
                },
                LineType::DialogLine { speaker, text, tags } => {
                    let ev = DialogEvent::Dialog {
                        speaker: speaker.clone(),
                        text: text.clone(),
                        tags: clone_tags(tags),
                    };
                    let new_state: DialogState = if cl + 1 >= self.nodes[cn].lines.len() {
                        DialogState::End
                    } else {
                        DialogState::Dialog
                    };
                    self.current_node = cn;
                    self.current_line_index = cl + 1;
                    self.dialog_state = new_state;
                    proof {
                        assert(walk(g, cn_old, cl_old, v_old, k0, 1) matches WalkResult::Emits(
                            em,
                        ) && em.event == ev@);
                        assert(cmds_old + Seq::<CommandCallV>::empty() =~= cmds_old);
                        assert(walk(g, n0, l0, v0, k0, steps as nat + 1)
                            matches WalkResult::Emits(em) && em.event == ev@ && em.state
                            == new_state && em.node == cn_old && em.line == cl_old + 1 && em.vars
                            == context.vars() && em.cmds == cmds_old);
                    }
                    return Ok(ev);
                },
                LineType::OptionLine { speaker, possibilities } => {
                    let opts = Self::build_options(possibilities, context);
                    let ev = DialogEvent::Options { speaker: speaker.clone(), options: opts };
                    self.current_node = cn;
                    self.current_line_index = cl;
                    self.dialog_state = DialogState::Waiting;
                    proof {
                        assert(walk(g, cn_old, cl_old, v_old, k0, 1) matches WalkResult::Emits(
                            em,
                        ) && em.event == ev@);
                        assert(cmds_old + Seq::<CommandCallV>::empty() =~= cmds_old);
                        assert(walk(g, n0, l0, v0, k0, steps as nat + 1)
                            matches WalkResult::Emits(em) && em.event == ev@ && em.state
                            == DialogState::Waiting && em.node == cn_old && em.line == cl_old
                            && em.vars == context.vars() && em.cmds == cmds_old);
                    }
                    return Ok(ev);
                },
            }
            steps = steps + 1;
        }
        self.dialog_state = DialogState::End;
        proof {
            assert(walk(g, cn as int, cl as int, context.vars(), k0, 0) is Stuck);
            assert(walk(g, n0, l0, v0, k0, steps as nat + 0) is Stuck);
            assert(steps as nat == 1 + sum_positions(g));
            assert forall|f: nat| (#[trigger] walk(g, n0, l0, v0, k0, f)) is Stuck by {
                lemma_walk_stuck_forever(g, n0, l0, v0, k0, f);
            }
        }
        Err(DialogRunnerError::EndlessLoop)
    }
}

/// The possibilities of an option line (empty for any other line).
pub open spec fn line_possibilities(l: LineV) -> Seq<PossV> {
    match l {
        LineV::OptionLine { possibilities, .. } => possibilities,
        _ => Seq::empty(),
    }
}

/// Index of the first possibility targeting `t`, or `-1` if none does.
pub open spec fn first_match(ps: Seq<PossV>, t: Seq<char>) -> int
    decreases ps.len(),
{
    if ps.len() == 0 {
        -1
    } else if ps.first().jump_to_node_title == t {
        0
    } else {
        let r = first_match(ps.drop_first(), t);
        if r < 0 {
            -1
        } else {
            r + 1
        }
    }
}

proof fn lemma_first_match_is(ps: Seq<PossV>, t: Seq<char>, i: int)
    requires
        0 <= i < ps.len(),
        ps[i].jump_to_node_title == t,
        forall|j: int| 0 <= j < i ==> ps[j].jump_to_node_title != t,
    ensures
        first_match(ps, t) == i,
    decreases i,
{
    if i > 0 {
        lemma_first_match_is(ps.drop_first(), t, i - 1);
    }
}

proof fn lemma_first_match_absent(ps: Seq<PossV>, t: Seq<char>)
    requires
        forall|j: int| 0 <= j < ps.len() ==> ps[j].jump_to_node_title != t,
    ensures
        first_match(ps, t) < 0,
    decreases ps.len(),
{
    if ps.len() > 0 {
        lemma_first_match_absent(ps.drop_first(), t);
    }
}

/// The graph with possibility `p` of the option line at `(n, l)` marked
/// used.
pub open spec fn mark_used(g: Seq<NodeV>, n: int, l: int, p: int) -> Seq<NodeV> {
    match g[n].lines[l] {
        LineV::OptionLine { speaker, possibilities } => g.update(
            n,
            NodeV {
                title: g[n].title,
                lines: g[n].lines.update(
                    l,
                    LineV::OptionLine {
                        speaker,
                        possibilities: possibilities.update(
                            p,
                            PossV { used: true, ..possibilities[p] },
                        ),
                    },
                ),
            },
        ),
        _ => g,
    }
}

/// Marking a possibility used preserves the graph invariant and changes
/// nothing but that flag.
proof fn lemma_mark_used_wf(g: Seq<NodeV>, n: int, l: int, p: int)
    requires
        graph_wf(g),
        0 <= n < g.len(),
        0 <= l < g[n].lines.len(),
        g[n].lines[l] is OptionLine,
        0 <= p < line_possibilities(g[n].lines[l]).len(),
    ensures
        ({
            let g2 = mark_used(g, n, l, p);
            &&& g2.len() == g.len()
            &&& forall|i: int|
                0 <= i < g.len() ==> (#[trigger] g2[i]).title == g[i].title && g2[i].lines.len()
                    == g[i].lines.len()
            &&& graph_wf(g2)
        }),
{
    let g2 = mark_used(g, n, l, p);
    let ps = line_possibilities(g[n].lines[l]);
    let ps2 = line_possibilities(g2[n].lines[l]);
    assert(ps2 =~= ps.update(p, PossV { used: true, ..ps[p] }));
    assert forall|i: int| 0 <= i < g2.len() implies crate::components::node_wf(
        #[trigger] g2[i],
    ) by {
        if i != n {
            assert(g2[i] == g[i]);
        } else {
            assert forall|k: int|
                0 <= k < g2[n].lines.len() implies crate::components::line_wf(
                #[trigger] g2[n].lines[k],
            ) by {
                if k != l {
                    assert(g2[n].lines[k] == g[n].lines[k]);
                    assert(crate::components::line_wf(g[n].lines[k]));
                } else {
                    assert(crate::components::line_wf(g[n].lines[l]));
                }
            }
        }
    }
    assert forall|i: int|
        0 <= i < g2.len() implies crate::components::node_resolved(g2, #[trigger] g2[i]) by {
        assert(crate::components::node_resolved(g, g[i]));
        assert forall|k: int|
            0 <= k < g2[i].lines.len() implies {
            &&& (#[trigger] g2[i].lines[k] matches LineV::JumpLine { node_title, node } ==> 0
                <= node < g2.len() && g2[node].title == node_title)
            &&& (g2[i].lines[k] matches LineV::OptionLine { possibilities, .. } ==> forall|
                q: int,
            |
                0 <= q < possibilities.len() ==> {
                    let t = #[trigger] possibilities[q];
                    0 <= t.jump_to_node < g2.len() && g2[t.jump_to_node].title
                        == t.jump_to_node_title
                })
        } by {
            if i == n && k == l {
                assert(g[i].lines[k] matches LineV::OptionLine { possibilities, .. }
                    ==> forall|q: int|
                    0 <= q < possibilities.len() ==> {
                        let t = #[trigger] possibilities[q];
                        0 <= t.jump_to_node < g.len() && g[t.jump_to_node].title
                            == t.jump_to_node_title
                    });
                assert forall|q: int| 0 <= q < ps2.len() implies {
                    let t = #[trigger] ps2[q];
                    0 <= t.jump_to_node < g2.len() && g2[t.jump_to_node].title
                        == t.jump_to_node_title
                } by {
                    assert(ps2[q].jump_to_node == ps[q].jump_to_node);
                    assert(ps2[q].jump_to_node_title == ps[q].jump_to_node_title);
                    assert(g2[ps[q].jump_to_node].title == g[ps[q].jump_to_node].title);
                }
            } else {
                assert(g2[i].lines[k] == g[i].lines[k]);
            }
        }
    }
}

impl DialogRunner {
    /// Index of the first possibility targeting `decision`, if any.
    fn find_possibility(possibilities: &Vec<OptionPossibility>, decision: &str) -> (r: Option<
        usize,
    >)
        ensures
            ({
                let ps = possibilities@.map_values(|p: OptionPossibility| p@);
                match r {
                    Some(i) => first_match(ps, decision@) == i && i < ps.len() && ps[
                        i as int
                    ].jump_to_node_title == decision@,
                    None => first_match(ps, decision@) < 0,
                }
            }),
    {
        let ghost ps = possibilities@.map_values(|p: OptionPossibility| p@);
        let mut i: usize = 0;
        while i < possibilities.len()
            invariant
                i <= ps.len(),
                ps == possibilities@.map_values(|p: OptionPossibility| p@),
                forall|j: int| 0 <= j < i ==> (#[trigger] ps[j]).jump_to_node_title != decision@,
            decreases ps.len() - i,
        {
            if str_eq(possibilities[i].jump_to_node_title.as_str(), decision) {
                proof {
                    lemma_first_match_is(ps, decision@, i as int);
                }
                return Some(i);
            }
            i += 1;
        }
        proof {
            lemma_first_match_absent(ps, decision@);
        }
        None
    }

    /// Chooses one of the currently presented possibilities: valid only in
    /// `Waiting`.  The first possibility whose target title matches
    /// `decision` is marked used, the cursor moves to its target node — the
    /// node titled `decision` — at line 0, and the state resets to `Start`,
    /// so the next `next_event` call walks the chosen node from its first
    /// line.  Outside `Waiting`, or with a title no possibility targets, a
    /// typed error is returned and nothing changes.
    pub fn make_decision(&mut self, decision: &str) -> (r: Result<(), DialogRunnerError>)
        requires
            old(self).wf(),
        ensures
            final(self).wf(),
            match r {
                Ok(()) => {
                    &&& old(self).state() == DialogState::Waiting
                    &&& ({
                        let ps = line_possibilities(
                            old(self).graph()[old(self).cur_node()].lines[old(self).cur_line()],
                        );
                        let p = first_match(ps, decision@);
                        &&& p >= 0
                        &&& final(self).graph() == mark_used(
                            old(self).graph(),
                            old(self).cur_node(),
                            old(self).cur_line(),
                            p,
                        )
                        &&& final(self).cur_node() == ps[p].jump_to_node
                        &&& final(self).cur_line() == 0
                        &&& final(self).state() == DialogState::Start
                        &&& 0 <= final(self).cur_node() < final(self).graph().len()
                        &&& final(self).graph()[final(self).cur_node()].title == decision@
                    })
                },
                Err(e) => *final(self) == *old(self) && match e {
                    DialogRunnerError::WrongState { current, expected } => old(self).state()
                        != DialogState::Waiting && current == old(self).state() && expected
                        == DialogState::Waiting,
                    DialogRunnerError::UnknownNodeChosen { node_name } => old(self).state()
                        == DialogState::Waiting && node_name@ == decision@ && first_match(
                        line_possibilities(
                            old(self).graph()[old(self).cur_node()].lines[old(self).cur_line()],
                        ),
                        decision@,
                    ) < 0,
                    _ => false,
                },
            },
    {
        match self.dialog_state {
            DialogState::Waiting => {},
            _ => {
                return Err(
                    DialogRunnerError::WrongState {
                        current: self.dialog_state,
                        expected: DialogState::Waiting,
                    },
                );
            },
        }
        let ghost g = self.graph();
        let n = self.current_node;
        let l = self.current_line_index;
        proof {
            assert(g[n as int] == self.nodes@[n as int]@);
            assert(g[n as int].lines[l as int] == self.nodes@[n as int].lines@[l as int]@);
        }
        let ghost ps = line_possibilities(g[n as int].lines[l as int]);
        let pidx: usize;
        let target: usize;
        match &self.nodes[n].lines[l] {
            LineType::OptionLine { possibilities, .. } => {
                proof {
                    assert(ps =~= possibilities@.map_values(|p: OptionPossibility| p@));
                }
                match Self::find_possibility(possibilities, decision) {
                    Some(i) => {
                        pidx = i;
                        target = possibilities[i].jump_to_node;
                        proof {
                            assert(ps[i as int].jump_to_node == target as int);
                        }
                    },
                    None => {
                        return Err(
                            DialogRunnerError::UnknownNodeChosen {
                                node_name: String::from_str(decision),
                            },
                        );
                    },
                }
            },
            _ => {
                // The runner waits, so the invariant puts an option line
                // under the cursor.
                proof {
                    assert(false);
                }
                return vstd::pervasive::unreached();
            },
        }
        let ghost nv = self.nodes@;
        let mut node = self.nodes.remove(n);
        let ghost lv = node.lines@;
        let mut line = node.lines.remove(l);
        match line {
            LineType::OptionLine { speaker, mut possibilities } => {
                let ghost pv = possibilities@;
                let mut p = possibilities.remove(pidx);
                p.used = true;
                possibilities.insert(pidx, p);
                proof {
                    assert(possibilities@ =~= pv.update(pidx as int, p));
                }
                line = LineType::OptionLine { speaker, possibilities };
            },
            _ => {
                // Unreachable for the same reason as above.
                proof {
                    assert(false);
                }
            },
        }
        node.lines.insert(l, line);
        proof {
            assert(node.lines@ =~= lv.update(l as int, line));
        }
        self.nodes.insert(n, node);
        proof {
            assert(self.nodes@ =~= nv.update(n as int, node));
        }
        self.current_node = target;
        self.current_line_index = 0;
        self.dialog_state = DialogState::Start;
        proof {
            let g2 = mark_used(g, n as int, l as int, pidx as int);
            assert(self.graph() =~~= g2);
            lemma_mark_used_wf(g, n as int, l as int, pidx as int);
            assert(0 <= ps[pidx as int].jump_to_node < g.len());
            assert(g2[target as int].lines.len() == g[target as int].lines.len());
            assert(crate::components::node_wf(g[target as int]));
            assert(crate::components::node_resolved(g, g[n as int]));
            assert(g[target as int].title == ps[pidx as int].jump_to_node_title);
            assert(g2[target as int].title == decision@);
        }
        Ok(())
    }
}

/// Fail-closed evaluation: a condition on a variable absent from the
/// State Context evaluates false, whichever comparison it uses and
/// whatever value it compares against.
pub proof fn lemma_unset_variable_fails_closed(c: CondV, vars: Map<Seq<char>, bool>)
    requires
        !vars.contains_key(c.variable_name),
    ensures
        !passes(Some(c), vars),
{
}

// ---------------------------------------------------------------------------
// A walk that exhausts the position budget can never finish
// ---------------------------------------------------------------------------
//
// Between emissions the walk's course depends on the cursor alone: set and
// registered command lines advance it, jumps move it, and everything else
// ends the walk.  A walk that survives one step per line of the graph
// therefore revisits some cursor position and cycles forever.  This
// section proves that, so that the `EndlessLoop` error can promise that no
// amount of fuel would have produced an event.

/// Where the walk's cursor moves without emitting, `None` where the walk
/// ends (an event, or an unregistered command).
spec fn step_of(g: Seq<NodeV>, k: Set<Seq<char>>, n: int, l: int) -> Option<(int, int)> {
    if l >= g[n].lines.len() {
        None
    } else {
        match g[n].lines[l] {
            LineV::SetLine { .. } => Some((n, l + 1)),
            LineV::CommandLine { func_name, .. } => if k.contains(func_name) {
                Some((n, l + 1))
            } else {
                None
            },
            LineV::JumpLine { node_title: _, node: target } => Some((target, 0)),
            _ => None,
        }
    }
}

/// Whether the walk makes `f` cursor steps without ending.
spec fn survives(g: Seq<NodeV>, k: Set<Seq<char>>, n: int, l: int, f: nat) -> bool
    decreases f,
{
    f == 0 || (step_of(g, k, n, l) matches Some(p) && survives(g, k, p.0, p.1, (f - 1) as nat))
}

/// The cursor after `i` steps (arbitrary once the walk has ended).
spec fn chain(g: Seq<NodeV>, k: Set<Seq<char>>, n: int, l: int, i: nat) -> (int, int)
    decreases i,
{
    if i == 0 {
        (n, l)
    } else {
        match step_of(
            g,
            k,
            chain(g, k, n, l, (i - 1) as nat).0,
            chain(g, k, n, l, (i - 1) as nat).1,
        ) {
            Some(p) => p,
            None => (0, 0),
        }
    }
}

/// Being stuck is exactly surviving the whole fuel, whatever the variable
/// map holds: variables never steer the walk's course.
proof fn lemma_stuck_iff_survives(
    g: Seq<NodeV>,
    n: int,
    l: int,
    vars: Map<Seq<char>, bool>,
    k: Set<Seq<char>>,
    f: nat,
)
    ensures
        (walk(g, n, l, vars, k, f) is Stuck) == survives(g, k, n, l, f),
    decreases f,
{
    if f > 0 && l < g[n].lines.len() {
        match g[n].lines[l] {
            LineV::SetLine { variable_name, value } => {
                lemma_stuck_iff_survives(
                    g,
                    n,
                    l + 1,
                    vars.insert(variable_name, value),
                    k,
                    (f - 1) as nat,
                );
            },
            LineV::CommandLine { func_name, .. } => {
                if k.contains(func_name) {
                    lemma_stuck_iff_survives(g, n, l + 1, vars, k, (f - 1) as nat);
                }
            },
            LineV::JumpLine { node_title: _, node: target } => {
                lemma_stuck_iff_survives(g, target, 0, vars, k, (f - 1) as nat);
            },
            _ => {},
        }
    }
}

proof fn lemma_survives_down(g: Seq<NodeV>, k: Set<Seq<char>>, n: int, l: int, f1: nat, f2: nat)
    requires
        survives(g, k, n, l, f1),
        f2 <= f1,
    ensures
        survives(g, k, n, l, f2),
    decreases f2,
{
    if f2 > 0 {
        let p = step_of(g, k, n, l)->0;
        lemma_survives_down(g, k, p.0, p.1, (f1 - 1) as nat, (f2 - 1) as nat);
    }
}

/// Chains compose: stepping `a + i` times is stepping `i` times from the
/// position reached after `a`.
proof fn lemma_chain_add(g: Seq<NodeV>, k: Set<Seq<char>>, n: int, l: int, a: nat, i: nat)
    ensures
        chain(g, k, n, l, a + i) == chain(
            g,
            k,
            chain(g, k, n, l, a).0,
            chain(g, k, n, l, a).1,
            i,
        ),
    decreases i,
{
    if i > 0 {
        lemma_chain_add(g, k, n, l, a, (i - 1) as nat);
    }
}

proof fn lemma_survives_split(g: Seq<NodeV>, k: Set<Seq<char>>, n: int, l: int, a: nat, b: nat)
    requires
        survives(g, k, n, l, a + b),
    ensures
        survives(g, k, n, l, a),
        survives(g, k, chain(g, k, n, l, a).0, chain(g, k, n, l, a).1, b),
    decreases a,
{
    if a > 0 {
        let p = step_of(g, k, n, l)->0;
        lemma_survives_split(g, k, p.0, p.1, (a - 1) as nat, b);
        lemma_chain_add(g, k, n, l, 1, (a - 1) as nat);
        assert(chain(g, k, n, l, 0) == (n, l));
        assert(chain(g, k, n, l, 1) == p);
        assert(chain(g, k, n, l, a) == chain(g, k, p.0, p.1, (a - 1) as nat));
    }
}

proof fn lemma_survives_compose(
    g: Seq<NodeV>,
    k: Set<Seq<char>>,
    n: int,
    l: int,
    a: nat,
    b: nat,
)
    requires
        survives(g, k, n, l, a),
        survives(g, k, chain(g, k, n, l, a).0, chain(g, k, n, l, a).1, b),
    ensures
        survives(g, k, n, l, a + b),
    decreases a,
{
    if a > 0 {
        let p = step_of(g, k, n, l)->0;
        lemma_chain_add(g, k, n, l, 1, (a - 1) as nat);
        assert(chain(g, k, n, l, 0) == (n, l));
        assert(chain(g, k, n, l, 1) == p);
        assert(chain(g, k, n, l, a) == chain(g, k, p.0, p.1, (a - 1) as nat));
        lemma_survives_compose(g, k, p.0, p.1, (a - 1) as nat, b);
    }
}

/// A position that returns to itself survives any number of steps.
proof fn lemma_cycle(g: Seq<NodeV>, k: Set<Seq<char>>, n: int, l: int, d: nat, m: nat)
    requires
        d >= 1,
        survives(g, k, n, l, d),
        chain(g, k, n, l, d) == (n, l),
    ensures
        survives(g, k, n, l, m),
    decreases m,
{
    if m <= d {
        lemma_survives_down(g, k, n, l, d, m);
    } else {
        lemma_cycle(g, k, n, l, d, (m - d) as nat);
        lemma_survives_compose(g, k, n, l, d, (m - d) as nat);
    }
}

/// Along a surviving walk over a well-formed graph, every visited position
/// is a line of a real node, and steps onward from it.
proof fn lemma_survives_chain(
    g: Seq<NodeV>,
    k: Set<Seq<char>>,
    n: int,
    l: int,
    f: nat,
    i: nat,
)
    requires
        graph_wf(g),
        0 <= n < g.len(),
        0 <= l < g[n].lines.len(),
        survives(g, k, n, l, f),
        i < f,
    ensures
        ({
            let p = chain(g, k, n, l, i);
            &&& 0 <= p.0 < g.len()
            &&& 0 <= p.1 < g[p.0].lines.len()
            &&& step_of(g, k, p.0, p.1) is Some
        }),
    decreases i,
{
    let p1 = step_of(g, k, n, l)->0;
    if i == 0 {
    } else {
        assert(crate::components::node_resolved(g, g[n]));
        assert(0 <= p1.0 < g.len());
        assert(crate::components::node_wf(g[p1.0]));
        assert(0 <= p1.1 <= g[p1.0].lines.len());
        if p1.1 == g[p1.0].lines.len() {
            assert(step_of(g, k, p1.0, p1.1) is None);
            assert(!survives(g, k, p1.0, p1.1, (f - 1) as nat));
            assert(false);
        }
        lemma_survives_chain(g, k, p1.0, p1.1, (f - 1) as nat, (i - 1) as nat);
        lemma_chain_add(g, k, n, l, 1, (i - 1) as nat);
        assert(chain(g, k, n, l, 0) == (n, l));
        assert(chain(g, k, n, l, 1) == p1);
        assert(chain(g, k, n, l, i) == chain(g, k, p1.0, p1.1, (i - 1) as nat));
    }
}

/// Lines of the nodes before node `n`, counted once each.
spec fn offset(g: Seq<NodeV>, n: int) -> nat
    decreases n when n >= 0
{
    if n <= 0 {
        0nat
    } else {
        offset(g, n - 1) + g[n - 1].lines.len()
    }
}

proof fn lemma_offset_mono(g: Seq<NodeV>, a: int, b: int)
    requires
        0 <= a <= b,
    ensures
        offset(g, a) <= offset(g, b),
    decreases b,
{
    if b > a {
        lemma_offset_mono(g, a, b - 1);
    }
}

/// The number every line position encodes to, distinct per position.
spec fn enc(g: Seq<NodeV>, n: int, l: int) -> int {
    offset(g, n) + l
}

proof fn lemma_enc_bound(g: Seq<NodeV>, n: int, l: int)
    requires
        0 <= n < g.len(),
        0 <= l < g[n].lines.len(),
    ensures
        0 <= enc(g, n, l) < offset(g, g.len() as int),
{
    assert(offset(g, n + 1) == offset(g, n) + g[n].lines.len());
    lemma_offset_mono(g, n + 1, g.len() as int);
}

proof fn lemma_enc_inj(g: Seq<NodeV>, n1: int, l1: int, n2: int, l2: int)
    requires
        0 <= n1 < g.len(),
        0 <= l1 < g[n1].lines.len(),
        0 <= n2 < g.len(),
        0 <= l2 < g[n2].lines.len(),
        enc(g, n1, l1) == enc(g, n2, l2),
    ensures
        n1 == n2,
        l1 == l2,
{
    if n1 < n2 {
        assert(offset(g, n1 + 1) == offset(g, n1) + g[n1].lines.len());
        lemma_offset_mono(g, n1 + 1, n2);
    }
    if n2 < n1 {
        assert(offset(g, n2 + 1) == offset(g, n2) + g[n2].lines.len());
        lemma_offset_mono(g, n2 + 1, n1);
    }
}

proof fn lemma_offset_prefix(g: Seq<NodeV>, m: int)
    requires
        0 <= m < g.len(),
    ensures
        offset(g, m) == offset(g.drop_last(), m),
    decreases m,
{
    if m > 0 {
        lemma_offset_prefix(g, m - 1);
        assert(g.drop_last()[m - 1] == g[m - 1]);
    }
}

proof fn lemma_total_le_sum(g: Seq<NodeV>)
    ensures
        offset(g, g.len() as int) <= sum_positions(g),
    decreases g.len(),
{
    if g.len() > 0 {
        lemma_total_le_sum(g.drop_last());
        if g.len() >= 2 {
            lemma_offset_prefix(g, g.len() - 1);
        }
        assert(offset(g, g.len() as int) == offset(g, g.len() - 1) + g[g.len() - 1].lines.len());
    }
}

/// The core claim behind `EndlessLoop`: a walk still stuck after one step
/// per line of a well-formed graph has revisited a position, so no fuel
/// at all would let it finish.
proof fn lemma_walk_stuck_forever(
    g: Seq<NodeV>,
    n: int,
    l: int,
    vars: Map<Seq<char>, bool>,
    k: Set<Seq<char>>,
    f: nat,
)
    requires
        graph_wf(g),
        0 <= n < g.len(),
        0 <= l < g[n].lines.len(),
        walk(g, n, l, vars, k, 1 + sum_positions(g)) is Stuck,
    ensures
        walk(g, n, l, vars, k, f) is Stuck,
{
    let b: nat = 1 + sum_positions(g);
    lemma_stuck_iff_survives(g, n, l, vars, k, b);
    let total = offset(g, g.len() as int);
    lemma_total_le_sum(g);
    lemma_survives_down(g, k, n, l, b, total + 1);
    let s = Seq::<int>::new(total + 1, |i: int| enc(
        g,
        chain(g, k, n, l, i as nat).0,
        chain(g, k, n, l, i as nat).1,
    ));
    assert forall|i: int| 0 <= i < s.len() implies 0 <= #[trigger] s[i] < total as int by {
        lemma_survives_chain(g, k, n, l, total + 1, i as nat);
        let p = chain(g, k, n, l, i as nat);
        lemma_enc_bound(g, p.0, p.1);
    }
    if s.no_duplicates() {
        s.unique_seq_to_set();
        let range = vstd::set_lib::set_int_range(0, total as int);
        vstd::set_lib::lemma_int_range(0, total as int);
        assert(s.to_set().subset_of(range));
        vstd::set_lib::lemma_len_subset(s.to_set(), range);
        assert(false);
    }
    let (x, y) = choose|x: int, y: int| x != y && 0 <= x < s.len() && 0 <= y < s.len() && s[x]
        == s[y];
    let i = if x < y {
        x
    } else {
        y
    };
    let j = if x < y {
        y
    } else {
        x
    };
    lemma_survives_chain(g, k, n, l, total + 1, i as nat);
    lemma_survives_chain(g, k, n, l, total + 1, j as nat);
    let pi = chain(g, k, n, l, i as nat);
    let pj = chain(g, k, n, l, j as nat);
    lemma_enc_inj(g, pi.0, pi.1, pj.0, pj.1);
    assert(pi == pj);
    let d = (j - i) as nat;
    lemma_survives_split(g, k, n, l, i as nat, (total + 1 - i) as nat);
    lemma_survives_down(g, k, pi.0, pi.1, (total + 1 - i) as nat, d);
    lemma_chain_add(g, k, n, l, i as nat, d);
    assert(chain(g, k, pi.0, pi.1, d) == pj);
    lemma_cycle(g, k, pi.0, pi.1, d, f);
    lemma_survives_down(g, k, n, l, total + 1, i as nat);
    lemma_survives_compose(g, k, n, l, i as nat, f);
    lemma_survives_down(g, k, n, l, i as nat + f, f);
    lemma_stuck_iff_survives(g, n, l, vars, k, f);
}

} // verus!
