//! Evaluating a trigger on a dataflow task, one node at a time.
//!
//! The runtime that executes node scripts lives outside the library: a run hands out the next
//! node to execute (`next_step`), takes back what the node produced (`record`), and in the end
//! gives the new state, the console log and the actions to invoke (`finish`).
use vstd::prelude::*;
use super::DataFlowState;
use super::dag::{
    DataFlowConfig, NodeWalker, edges_in_bounds, pos, reach_set, reachable,
    lemma_pos, lemma_reachable_after_start,
};
use super::node::{ConsoleMessage, DataFlowNodeFunction, NodeResult, TaskActionInvocation};
use crate::error::Error;
use crate::text::str_eq;

verus! {

/// The console output of one node during a run.
pub struct DataFlowNodeLog {
    pub node: String,
    pub console: Vec<ConsoleMessage>,
}

/// The console output of a run, node by node.
pub struct DataFlowLog {
    pub run: Vec<DataFlowNodeLog>,
}

/// A node that the run asks to execute.
pub struct NodeStep {
    pub node_idx: usize,
    /// The names of the nodes whose output must not be null for the node to run; empty when
    /// the node allows null inputs.
    pub null_check_nodes: Vec<String>,
    /// Whether this is the trigger node, which receives the trigger's payload as its input.
    pub is_trigger: bool,
}

/// The names of the sources of the edges into `idx`, in edge order.
pub open spec fn source_names(config: &DataFlowConfig, edges: Seq<super::DataFlowEdge>, idx: nat) -> Seq<
    Seq<char>,
>
    decreases edges.len(),
{
    if edges.len() == 0 {
        Seq::empty()
    } else {
        let rest = source_names(config, edges.drop_last(), idx);
        if edges.last().to == idx {
            rest.push(config.nodes@[edges.last().from as int].name@)
        } else {
            rest
        }
    }
}

/// The nodes that a node's output goes to directly.
pub open spec fn successors(config: &DataFlowConfig, idx: nat) -> Set<nat> {
    Set::new(|x: nat| exists|e: int| 0 <= e < config.edges@.len() && config.edges@[e].from == idx
        && config.edges@[e].to == x)
}

/// The position of the first trigger node listening for `trigger_id`.
pub open spec fn is_first_trigger(config: &DataFlowConfig, trigger_id: Seq<char>, i: int) -> bool {
    &&& 0 <= i < config.nodes@.len()
    &&& listens(config, trigger_id, i)
    &&& forall|j: int| 0 <= j < i ==> !listens(config, trigger_id, j)
}

/// Node `i` is a trigger node for `trigger_id`.
pub open spec fn listens(config: &DataFlowConfig, trigger_id: Seq<char>, i: int) -> bool {
    config.nodes@[i].func matches DataFlowNodeFunction::Trigger(t) && t.local_id@ == trigger_id
}

/// An action asked for, as plain values: its name and payload.
pub open spec fn action_view(a: TaskActionInvocation) -> (Seq<char>, crate::json::JsonView) {
    (a.name@, a.payload@)
}

/// Console output as plain values: each message's level and text.
pub open spec fn console_view(c: Seq<ConsoleMessage>) -> Seq<(Seq<char>, Seq<char>)> {
    c.map_values(|m: ConsoleMessage| (m.level@, m.message@))
}

/// One node's log entry as plain values: the node's name and its console output.
pub open spec fn node_log_view(l: DataFlowNodeLog) -> (Seq<char>, Seq<(Seq<char>, Seq<char>)>) {
    (l.node@, console_view(l.console@))
}

/// Node `j` is an action node for the action `name`.
pub open spec fn is_action_node(config: &DataFlowConfig, j: int, name: Seq<char>) -> bool {
    &&& 0 <= j < config.nodes@.len()
    &&& config.nodes@[j].func matches DataFlowNodeFunction::Action(d) && d.action_id@ == name
}

/// Some action node of the task is for the action `name`.
pub open spec fn names_action(config: &DataFlowConfig, name: Seq<char>) -> bool {
    exists|j: int| is_action_node(config, j, name)
}

/// Every action is named by the action id of one of the task's action nodes.
pub open spec fn names_action_nodes(config: &DataFlowConfig, acts: Seq<(Seq<char>, crate::json::JsonView)>) -> bool {
    forall|i: int| 0 <= i < acts.len() ==> #[trigger] names_action(config, acts[i].0)
}

/// The action that recording a result of node `p` keeps: none for the trigger node, and
/// otherwise the action the result asks for, named by the node's action id, when the node is an
/// action node.
pub open spec fn recorded_action(config: &DataFlowConfig, p: int, first: bool, action: Option<TaskActionInvocation>) -> Seq<(Seq<char>, crate::json::JsonView)> {
    if first {
        Seq::empty()
    } else {
        match (action, config.nodes@[p].func) {
            (Some(a), DataFlowNodeFunction::Action(d)) => seq![(d.action_id@, a.payload@)],
            _ => Seq::empty(),
        }
    }
}

/// The log entry that recording a result of node `p` adds: none for the trigger node or
/// empty console output, else the node's name with its console output.
pub open spec fn recorded_log(config: &DataFlowConfig, p: int, first: bool, console: Seq<ConsoleMessage>) -> Seq<(Seq<char>, Seq<(Seq<char>, Seq<char>)>)> {
    if !first && console.len() > 0 {
        seq![(config.nodes@[p].name@, console_view(console))]
    } else {
        Seq::empty()
    }
}

/// Adding an action named by an action node keeps every action named by one.
proof fn lemma_names_push(config: &DataFlowConfig, acts: Seq<(Seq<char>, crate::json::JsonView)>, x: (Seq<char>, crate::json::JsonView), j: int)
    requires
        names_action_nodes(config, acts),
        is_action_node(config, j, x.0),
    ensures
        names_action_nodes(config, acts.push(x)),
{
    let all = acts.push(x);
    assert(names_action(config, x.0));
    assert forall|i: int| 0 <= i < all.len() implies #[trigger] names_action(config, all[i].0) by {
        if i < acts.len() {
            assert(all[i] == acts[i]);
            assert(names_action(config, acts[i].0));
        } else {
            assert(all[i] == x);
        }
    }
}

/// A run from the trigger node `trigger` leaves the stored state of node `i` alone: it is a
/// text node, or it cannot be reached from the trigger node.
pub open spec fn keeps_state(config: &DataFlowConfig, trigger: u32, i: int) -> bool {
    (config.nodes@[i].func is Text) || !reach_set(config.edges@, trigger).contains(i as nat)
}

/// A run of a trigger through a dataflow task.
pub struct DataFlowRun<'a> {
    config: &'a DataFlowConfig,
    walker: NodeWalker<'a>,
    trigger_node: usize,
    state: DataFlowState,
    to_run: Vec<bool>,
    logs: Vec<DataFlowNodeLog>,
    actions: Vec<TaskActionInvocation>,
    /// The node handed out last and not recorded yet.
    pending: Option<usize>,
    /// The trigger node produced nothing, so the run ends with the state unchanged.
    stopped: bool,
    /// The nodes whose run produced a result.
    produced: Ghost<Set<nat>>,
    /// The stored state the run started from, fitted to the nodes.
    initial: Ghost<Seq<Seq<char>>>,
}

impl<'a> DataFlowRun<'a> {
    pub closed spec fn config(&self) -> &'a DataFlowConfig {
        self.config
    }

    pub closed spec fn trigger_node(&self) -> nat {
        self.trigger_node as nat
    }

    pub closed spec fn state_view(&self) -> Seq<Seq<char>> {
        self.state.nodes@.map_values(|s: String| s@)
    }

    /// The nodes marked to run: the trigger and the direct successors of nodes that produced
    /// a result.
    pub closed spec fn to_run(&self) -> Set<nat> {
        Set::new(|x: nat| x < self.to_run@.len() && self.to_run@[x as int])
    }

    pub closed spec fn produced(&self) -> Set<nat> {
        self.produced@
    }

    /// The stored state the run started from, fitted to the nodes.
    pub closed spec fn initial_view(&self) -> Seq<Seq<char>> {
        self.initial@
    }

    pub closed spec fn log_len(&self) -> nat {
        self.logs@.len()
    }

    pub closed spec fn action_count(&self) -> nat {
        self.actions@.len()
    }

    /// The actions asked for so far, in the order the nodes ran.
    pub closed spec fn actions_view(&self) -> Seq<(Seq<char>, crate::json::JsonView)> {
        self.actions@.map_values(|a: TaskActionInvocation| action_view(a))
    }

    /// The console log so far, node by node.
    pub closed spec fn log_view(&self) -> Seq<(Seq<char>, Seq<(Seq<char>, Seq<char>)>)> {
        self.logs@.map_values(|l: DataFlowNodeLog| node_log_view(l))
    }

    pub closed spec fn pending(&self) -> Option<usize> {
        self.pending
    }

    pub closed spec fn stopped(&self) -> bool {
        self.stopped
    }

    /// The walk position: nodes before it have been handed out or skipped.
    pub closed spec fn cursor(&self) -> nat {
        self.walker.cursor()
    }

    pub closed spec fn wf(&self) -> bool {
        &&& self.config.wf()
        &&& edges_in_bounds(self.config.nodes.len() as nat, self.config.edges@)
        &&& self.walker.wf()
        &&& self.walker.config() == self.config
        &&& self.walker.active() == reach_set(self.config.edges@, self.trigger_node as u32)
        &&& self.trigger_node < self.config.nodes.len()
        &&& names_action_nodes(self.config, self.actions@.map_values(|a: TaskActionInvocation| action_view(a)))
        &&& self.state.nodes.len() == self.config.nodes.len()
        &&& self.initial@.len() == self.config.nodes.len()
        &&& forall|i: int| 0 <= i < self.state.nodes@.len() && keeps_state(self.config, self.trigger_node as u32, i)
            ==> #[trigger] self.state.nodes@[i]@ == self.initial@[i]
        &&& self.to_run.len() == self.config.nodes.len()
        &&& self.to_run@[self.trigger_node as int]
        &&& forall|x: int|
            0 <= x < self.to_run@.len() && #[trigger] self.to_run@[x] && x != self.trigger_node
                ==> exists|e: int|
                0 <= e < self.config.edges@.len() && self.config.edges@[e].to == x
                    && self.produced@.contains(self.config.edges@[e].from as nat)
        &&& forall|x: nat|
            #[trigger] self.produced@.contains(x) ==> reach_set(
                self.config.edges@,
                self.trigger_node as u32,
            ).contains(x)
        &&& (self.pending matches Some(p) ==> p < self.config.nodes.len() && reach_set(
            self.config.edges@,
            self.trigger_node as u32,
        ).contains(p as nat))
    }

    /// Starts a run of the trigger `trigger_id` with the task's stored state. The state is
    /// first fitted to the number of nodes (cut, or padded with empty strings). The first step
    /// of the run is the first trigger node listening for `trigger_id`.
    pub fn begin(config: &'a DataFlowConfig, state: DataFlowState, trigger_id: &str) -> (r: Result<
        DataFlowRun<'a>,
        Error,
    >)
        requires
            config.wf(),
            edges_in_bounds(config.nodes.len() as nat, config.edges@),
        ensures
            (forall|i: int| 0 <= i < config.nodes@.len() ==> !listens(config, trigger_id@, i)) ==> (r
                is Err && (r->Err_0 matches Error::TaskTriggerNotFound(t) && t@ == trigger_id@)),
            (exists|i: int| 0 <= i < config.nodes@.len() && listens(config, trigger_id@, i))
                ==> match r {
                Ok(run) => {
                    &&& run.wf()
                    &&& run.config() == config
                    &&& is_first_trigger(config, trigger_id@, run.trigger_node() as int)
                    &&& run.state_view() == fitted(
                        state.nodes@.map_values(|s: String| s@),
                        config.nodes.len() as nat,
                    )
                    &&& run.to_run() == set![run.trigger_node()]
                    &&& run.produced() == Set::<nat>::empty()
                    &&& run.log_len() == 0
                    &&& run.action_count() == 0
                    &&& run.actions_view().len() == 0
                    &&& run.initial_view() == run.state_view()
                    &&& run.log_view().len() == 0
                    &&& run.pending() == Some(run.trigger_node() as usize)
                    &&& !run.stopped()
                    &&& run.cursor() == pos(config.toposorted@, run.trigger_node() as u32) + 1
                },
                Err(_) => false,
            },
    {
        let n = config.nodes.len();
        let state = fit_state(state, n);
        let mut i: usize = 0;
        let mut found = false;
        while i < n && !found
            invariant
                n == config.nodes@.len(),
                i <= n,
                found ==> i < n && listens(config, trigger_id@, i as int),
                forall|j: int| 0 <= j < i ==> !listens(config, trigger_id@, j),
            decreases n - i, if found { 0int } else { 1int },
        {
            let is_match = match &config.nodes[i].func {
                DataFlowNodeFunction::Trigger(t) => str_eq(t.local_id.as_str(), trigger_id),
                _ => false,
            };
            if is_match {
                found = true;
            } else {
                i = i + 1;
            }
        }
        if !found {
            return Err(Error::TaskTriggerNotFound(crate::text::string_of(trigger_id)));
        }
        let trigger_node = i;
        let mut walker = match NodeWalker::starting_from(config, trigger_node as u32) {
            Ok(w) => w,
            Err(e) => {
                return Err(e);
            },
        };
        proof {
            crate::dataflow::dag::lemma_reach_self(config.edges@, trigger_node as u32);
            lemma_pos(n as nat, config.toposorted@, trigger_node as u32);
        }
        let first = walker.next();
        proof {
            assert(walker.active().contains(trigger_node as nat));
            assert(first is Some);
        }
        let mut to_run: Vec<bool> = Vec::new();
        let mut k: usize = 0;
        while k < n
            invariant
                k <= n,
                to_run@.len() == k,
                forall|j: int| 0 <= j < k ==> to_run@[j] == (j == trigger_node),
            decreases n - k,
        {
            to_run.push(k == trigger_node);
            k = k + 1;
        }
        let run = DataFlowRun {
            config,
            walker,
            trigger_node,
            state,
            to_run,
            logs: Vec::new(),
            actions: Vec::new(),
            pending: Some(trigger_node),
            stopped: false,
            produced: Ghost(Set::empty()),
            initial: Ghost(state.nodes@.map_values(|s: String| s@)),
        };
        proof {
            assert(run.to_run() =~= set![trigger_node as nat]);
            assert(run.actions@.map_values(|a: TaskActionInvocation| action_view(a)) =~= Seq::empty());
        }
        Ok(run)
    }

    /// The node handed out and not recorded yet, and whether it is the trigger node.
    pub fn pending_step(&self) -> (r: Option<(usize, bool)>)
        ensures
            match self.pending() {
                Some(p) => r == Some((p, p == self.trigger_node())),
                None => r is None,
            },
    {
        match self.pending {
            Some(p) => Some((p, p == self.trigger_node)),
            None => None,
        }
    }

    /// Hands out the next node to execute: the next node of the walk from the trigger node
    /// that is marked to run. Nodes of the walk that are not marked are skipped. `None` ends
    /// the run.
    pub fn next_step(&mut self) -> (r: Option<NodeStep>)
        requires
            old(self).wf(),
            old(self).pending() is None,
        ensures
            final(self).wf(),
            final(self).config() == old(self).config(),
            final(self).trigger_node() == old(self).trigger_node(),
            final(self).state_view() == old(self).state_view(),
            final(self).to_run() == old(self).to_run(),
            final(self).produced() == old(self).produced(),
            final(self).log_len() == old(self).log_len(),
            final(self).action_count() == old(self).action_count(),
            final(self).actions_view() == old(self).actions_view(),
            final(self).log_view() == old(self).log_view(),
            final(self).initial_view() == old(self).initial_view(),
            final(self).stopped() == old(self).stopped(),
            old(self).stopped() ==> r is None,
            match r {
                Some(step) => {
                    let c = old(self).config();
                    let j = final(self).cursor() - 1;
                    &&& !old(self).stopped()
                    &&& final(self).pending() == Some(step.node_idx)
                    &&& old(self).cursor() <= j < c.toposorted@.len()
                    &&& step.node_idx == c.toposorted@[j]
                    &&& old(self).to_run().contains(step.node_idx as nat)
                    &&& reachable(c.edges@, old(self).trigger_node() as u32, step.node_idx as u32)
                    &&& forall|k: int|
                        old(self).cursor() <= k < j && reach_set(
                            c.edges@,
                            old(self).trigger_node() as u32,
                        ).contains(#[trigger] c.toposorted@[k] as nat) ==> !old(self).to_run().contains(
                            c.toposorted@[k] as nat,
                        )
                    &&& step.is_trigger == (step.node_idx == old(self).trigger_node())
                    &&& step.null_check_nodes@.map_values(|s: String| s@) == if c.nodes@[step.node_idx as int].allow_null_inputs {
                        Seq::empty()
                    } else {
                        source_names(c, c.edges@, step.node_idx as nat)
                    }
                },
                None => {
                    &&& final(self).pending() is None
                    &&& (!old(self).stopped() ==> forall|k: int|
                        old(self).cursor() <= k < old(self).config().toposorted@.len() && reach_set(
                            old(self).config().edges@,
                            old(self).trigger_node() as u32,
                        ).contains(#[trigger] old(self).config().toposorted@[k] as nat)
                            ==> !old(self).to_run().contains(
                            old(self).config().toposorted@[k] as nat,
                        ))
                },
            },
    {
        if self.stopped {
            return None;
        }
        let ghost start = self.walker.cursor();
        loop
            invariant
                self.wf(),
                !self.stopped,
                self.pending is None,
                self.config == old(self).config,
                self.trigger_node == old(self).trigger_node,
                self.state == old(self).state,
                self.to_run == old(self).to_run,
                self.produced == old(self).produced,
                self.initial == old(self).initial,
                self.logs == old(self).logs,
                self.actions == old(self).actions,
                self.stopped == old(self).stopped,
                start == old(self).walker.cursor(),
                start <= self.walker.cursor(),
                forall|k: int|
                    start <= k < self.walker.cursor() && k < self.config.toposorted@.len()
                        && reach_set(self.config.edges@, self.trigger_node as u32).contains(
                        #[trigger] self.config.toposorted@[k] as nat,
                    ) ==> !self.to_run().contains(self.config.toposorted@[k] as nat),
            decreases self.config.toposorted@.len() + 1 - self.walker.cursor(),
        {
            match self.walker.next() {
                None => {
                    return None;
                },
                Some(idx) => {
                    proof {
                        let j = self.walker.cursor() - 1;
                        assert(self.config.toposorted@[j] == idx);
                        assert(self.config.toposorted@[j] < self.config.nodes.len());
                        lemma_pos(self.config.nodes.len() as nat, self.config.toposorted@, idx as u32);
                    }
                    if self.to_run[idx] {
                        let null_check_nodes = if self.config.nodes[idx].allow_null_inputs {
                            Vec::new()
                        } else {
                            source_names_exec(self.config, idx)
                        };
                        self.pending = Some(idx);
                        proof {
                            if self.config.nodes@[idx as int].allow_null_inputs {
                                assert(null_check_nodes@.map_values(|s: String| s@) =~= Seq::<Seq<char>>::empty());
                            }
                        }
                        return Some(NodeStep { node_idx: idx, null_check_nodes, is_trigger: idx == self.trigger_node });
                    }
                },
            }
        }
    }

    /// Takes what the handed-out node produced. `None` means the node produced nothing: for the
    /// trigger node the run then stops with the state unchanged; for other nodes it goes on.
    ///
    /// A result marks the node's direct successors to run, stores the node's state unless it
    /// is a text node, and, except for the trigger node, keeps its console output under the
    /// node's name (when there is any) and, for an action node, the action it asks for under the
    /// node's action id (when there is one).
    pub fn record(&mut self, result: Option<NodeResult>)
        requires
            old(self).wf(),
            old(self).pending() is Some,
        ensures
            final(self).wf(),
            final(self).config() == old(self).config(),
            final(self).trigger_node() == old(self).trigger_node(),
            final(self).cursor() == old(self).cursor(),
            final(self).pending() is None,
            final(self).initial_view() == old(self).initial_view(),
            ({
                let p = old(self).pending()->0;
                let c = old(self).config();
                let first = p == old(self).trigger_node();
                match result {
                    None => {
                        &&& final(self).stopped() == (old(self).stopped() || first)
                        &&& final(self).state_view() == old(self).state_view()
                        &&& final(self).to_run() == old(self).to_run()
                        &&& final(self).produced() == old(self).produced()
                        &&& final(self).log_len() == old(self).log_len()
                        &&& final(self).action_count() == old(self).action_count()
                        &&& final(self).actions_view() == old(self).actions_view()
                        &&& final(self).log_view() == old(self).log_view()
                    },
                    Some(res) => {
                        &&& final(self).stopped() == old(self).stopped()
                        &&& final(self).to_run() == old(self).to_run().union(successors(c, p as nat))
                        &&& final(self).produced() == old(self).produced().insert(p as nat)
                        &&& final(self).state_view() == if !(c.nodes@[p as int].func is Text) {
                            old(self).state_view().update(p as int, res.state@)
                        } else {
                            old(self).state_view()
                        }
                        &&& final(self).log_len() == if !first && res.console@.len() > 0 {
                            old(self).log_len() + 1
                        } else {
                            old(self).log_len()
                        }
                        &&& final(self).action_count() == old(self).action_count()
                            + recorded_action(c, p as int, first, res.action).len()
                        &&& final(self).actions_view() == old(self).actions_view()
                            + recorded_action(c, p as int, first, res.action)
                        &&& final(self).log_view() == old(self).log_view()
                            + recorded_log(c, p as int, first, res.console@)
                    },
                }
            }),
    {
        let p = self.pending.unwrap();
        self.pending = None;
        let first = p == self.trigger_node;
        match result {
            None => {
                if first {
                    self.stopped = true;
                }
            },
            Some(res) => {
                let ghost old_run = self.to_run();
                let ghost old_seq = self.to_run@;
                let ghost old_produced = self.produced@;
                proof {
                    self.produced = Ghost(self.produced@.insert(p as nat));
                }
                self.mark_successors(p);
                proof {
                    assert forall|x: int|
                        0 <= x < self.to_run@.len() && #[trigger] self.to_run@[x] && x != self.trigger_node
                        implies exists|e: int|
                        0 <= e < self.config.edges@.len() && self.config.edges@[e].to == x
                            && self.produced@.contains(self.config.edges@[e].from as nat) by {
                        assert(self.to_run().contains(x as nat));
                        if old_run.contains(x as nat) {
                            assert(old_seq[x]);
                            let e = choose|e: int|
                                0 <= e < self.config.edges@.len() && self.config.edges@[e].to == x
                                    && old_produced.contains(self.config.edges@[e].from as nat);
                            assert(self.produced@.contains(self.config.edges@[e].from as nat));
                        } else {
                            assert(successors(self.config, p as nat).contains(x as nat));
                            let e = choose|e: int| 0 <= e < self.config.edges@.len() && self.config.edges@[e].from == p
                                && self.config.edges@[e].to == x;
                            assert(self.produced@.contains(self.config.edges@[e].from as nat));
                        }
                    }
                }
                let NodeResult { state, action, console } = res;
                let ghost console_v = console@;
                let ghost action_v = action;
                let ghost old_logs = self.logs@;
                let ghost old_actions = self.actions@;
                let ghost before_nodes = self.state.nodes@;
                if self.config.nodes[p].func.persist_output() {
                    self.state.nodes.set(p, state);
                }
                proof {
                    assert forall|i: int| 0 <= i < self.state.nodes@.len() && keeps_state(self.config, self.trigger_node as u32, i)
                        implies #[trigger] self.state.nodes@[i]@ == self.initial@[i] by {
                        if i != p {
                            assert(self.state.nodes@[i] == before_nodes[i]);
                        } else if !(self.config.nodes@[i].func is Text) {
                            assert(reach_set(self.config.edges@, self.trigger_node as u32).contains(p as nat));
                        } else {
                            assert(self.state.nodes@[i] == before_nodes[i]);
                        }
                    }
                }
                if !first {
                    if console.len() > 0 {
                        let node = self.config.nodes[p].name.clone();
                        let entry = DataFlowNodeLog { node, console };
                        self.logs.push(entry);
                        assert(self.logs@.map_values(|l: DataFlowNodeLog| node_log_view(l)) =~= old_logs.map_values(|l: DataFlowNodeLog| node_log_view(l)).push(node_log_view(entry)));
                    }
                    match action {
                        Some(a) => match &self.config.nodes[p].func {
                            DataFlowNodeFunction::Action(d) => {
                                let named = TaskActionInvocation { name: d.action_id.clone(), payload: a.payload };
                                self.actions.push(named);
                                proof {
                                    assert(self.actions@.map_values(|a: TaskActionInvocation| action_view(a)) =~= old_actions.map_values(|a: TaskActionInvocation| action_view(a)).push(action_view(named)));
                                    lemma_names_push(self.config, old_actions.map_values(|a: TaskActionInvocation| action_view(a)), action_view(named), p as int);
                                }
                            },
                            _ => {},
                        },
                        None => {},
                    }
                }
                proof {
                    assert(self.actions@.map_values(|a: TaskActionInvocation| action_view(a)) =~= old_actions.map_values(|a: TaskActionInvocation| action_view(a)) + recorded_action(self.config, p as int, first, action_v));
                    assert(self.logs@.map_values(|l: DataFlowNodeLog| node_log_view(l)) =~= old_logs.map_values(|l: DataFlowNodeLog| node_log_view(l)) + recorded_log(self.config, p as int, first, console_v));
                }
                assert(self.state.nodes.len() == self.config.nodes.len());
                assert(old_run.contains(self.trigger_node as nat));
                assert(self.to_run().contains(self.trigger_node as nat));
                assert(self.to_run@[self.trigger_node as int]);
                assert(forall|x: nat|
            #[trigger] self.produced@.contains(x) ==> reach_set(
                self.config.edges@,
                self.trigger_node as u32,
            ).contains(x));
                assert(self.wf());
            },
        }
    }
}


impl<'a> DataFlowRun<'a> {
    /// Marks the targets of all edges out of `p` to run.
    fn mark_successors(&mut self, p: usize)
        requires
            p < old(self).config.nodes.len(),
            old(self).to_run.len() == old(self).config.nodes.len(),
            edges_in_bounds(old(self).config.nodes.len() as nat, old(self).config.edges@),
        ensures
            final(self).config == old(self).config,
            final(self).walker == old(self).walker,
            final(self).trigger_node == old(self).trigger_node,
            final(self).state == old(self).state,
            final(self).logs == old(self).logs,
            final(self).actions == old(self).actions,
            final(self).pending == old(self).pending,
            final(self).stopped == old(self).stopped,
            final(self).produced == old(self).produced,
            final(self).initial == old(self).initial,
            final(self).to_run.len() == old(self).to_run.len(),
            final(self).to_run() == old(self).to_run().union(successors(old(self).config, p as nat)),
    {
        let edges_len = self.config.edges.len();
        let mut i: usize = 0;
        let ghost start_set = self.to_run();
        while i < edges_len
            invariant
                edges_len == self.config.edges.len(),
                i <= edges_len,
                p < self.config.nodes.len(),
                self.to_run.len() == self.config.nodes.len(),
                edges_in_bounds(self.config.nodes.len() as nat, self.config.edges@),
                self.config == old(self).config,
                self.walker == old(self).walker,
                self.trigger_node == old(self).trigger_node,
                self.state == old(self).state,
                self.logs == old(self).logs,
                self.actions == old(self).actions,
                self.pending == old(self).pending,
                self.stopped == old(self).stopped,
                self.produced == old(self).produced,
                self.initial == old(self).initial,
                start_set == old(self).to_run(),
                self.to_run() == start_set.union(Set::new(|x: nat| exists|e: int|
                    0 <= e < i && self.config.edges@[e].from == p && self.config.edges@[e].to == x)),
            decreases edges_len - i,
        {
            let e = self.config.edges[i];
            let ghost before = self.to_run();
            let ghost before_seq = self.to_run@;
            if e.from as usize == p {
                self.to_run.set(e.to as usize, true);
            }
            proof {
                assert(forall|k: int| 0 <= k < before_seq.len() && before_seq[k] ==> self.to_run@[k]);
                assert(forall|x: nat| before.contains(x) ==> self.to_run().contains(x));
                assert(self.to_run() =~= start_set.union(Set::new(|x: nat| exists|e: int|
                    0 <= e < i + 1 && self.config.edges@[e].from == p && self.config.edges@[e].to == x))) by {
                    assert forall|x: nat| self.to_run().contains(x) implies start_set.union(Set::new(|x: nat| exists|e: int|
                        0 <= e < i + 1 && self.config.edges@[e].from == p && self.config.edges@[e].to == x)).contains(x) by {
                        if before.contains(x) {
                        } else {
                            assert(x == e.to);
                            assert(self.config.edges@[i as int].from == p && self.config.edges@[i as int].to == x);
                        }
                    }
                    assert forall|x: nat| start_set.union(Set::new(|x: nat| exists|e: int|
                        0 <= e < i + 1 && self.config.edges@[e].from == p && self.config.edges@[e].to == x)).contains(x) implies self.to_run().contains(x) by {
                        if start_set.contains(x) {
                            assert(before.contains(x));
                        } else {
                            let k = choose|k: int| 0 <= k < i + 1 && self.config.edges@[k].from == p && self.config.edges@[k].to == x;
                            if k < i {
                                assert(before.contains(x));
                            } else {
                                assert(k == i);
                                assert(x < self.to_run@.len());
                                assert(self.to_run@[x as int]);
                            }
                        }
                    }
                }
            }
            i = i + 1;
        }
        assert(self.to_run() =~= old(self).to_run().union(successors(old(self).config, p as nat)));
    }

    /// Ends the run: the new state, the console log (`None` when no node wrote anything), and
    /// the actions asked for, in the order the nodes ran.
    pub fn finish(self) -> (r: (DataFlowState, Option<DataFlowLog>, Vec<TaskActionInvocation>))
        requires
            self.wf(),
        ensures
            r.0.nodes@.map_values(|s: String| s@) == self.state_view(),
            r.1 is None <==> self.log_len() == 0,
            r.1 matches Some(log) ==> log.run@.len() == self.log_len(),
            r.2@.len() == self.action_count(),
            r.1 is None <==> self.log_view().len() == 0,
            r.1 matches Some(log) ==> log.run@.map_values(|l: DataFlowNodeLog| node_log_view(l)) == self.log_view(),
            r.2@.map_values(|a: TaskActionInvocation| action_view(a)) == self.actions_view(),
            names_action_nodes(self.config(), r.2@.map_values(|a: TaskActionInvocation| action_view(a))),
            r.0.nodes@.len() == self.config().nodes@.len(),
            forall|i: int| 0 <= i < r.0.nodes@.len() && keeps_state(self.config(), self.trigger_node() as u32, i)
                ==> (#[trigger] r.0.nodes@[i])@ == self.initial_view()[i],
    {
        let DataFlowRun { state, logs, actions, .. } = self;
        let log = if logs.len() == 0 { None } else { Some(DataFlowLog { run: logs }) };
        (state, log, actions)
    }
}

/// A stored state with exactly `n` entries: cut to `n`, or padded with empty strings.
pub open spec fn fitted(s: Seq<Seq<char>>, n: nat) -> Seq<Seq<char>> {
    if s.len() >= n {
        s.take(n as int)
    } else {
        s + Seq::new((n - s.len()) as nat, |i: int| Seq::<char>::empty())
    }
}

/// Fits a stored state to `n` nodes: cut to `n`, or padded with empty strings.
pub fn fit_state(state: DataFlowState, n: usize) -> (r: DataFlowState)
    ensures
        r.nodes.len() == n,
        r.nodes@.map_values(|s: String| s@) == fitted(state.nodes@.map_values(|s: String| s@), n as nat),
{
    let mut nodes = state.nodes;
    let ghost orig = nodes@.map_values(|s: String| s@);
    if nodes.len() >= n {
        nodes.truncate(n);
        assert(nodes@.map_values(|s: String| s@) =~= fitted(orig, n as nat));
    } else {
        let ghost m = nodes.len();
        while nodes.len() < n
            invariant
                m <= nodes.len() <= n,
                m == orig.len(),
                m < n,
                nodes@.map_values(|s: String| s@) == orig + Seq::new((nodes.len() - m) as nat, |i: int| Seq::<char>::empty()),
            decreases n - nodes.len(),
        {
            let ghost before_nodes = nodes@;
            let ghost k = nodes.len() - m;
            let empty = String::new();
            nodes.push(empty);
            assert(nodes@ =~= before_nodes.push(empty));
            assert(nodes@.map_values(|s: String| s@) =~= before_nodes.map_values(|s: String| s@).push(Seq::<char>::empty()));
            assert(orig + Seq::new((k + 1) as nat, |i: int| Seq::<char>::empty()) =~= (orig + Seq::new(k as nat, |i: int| Seq::<char>::empty())).push(Seq::<char>::empty()));
            assert(nodes@.map_values(|s: String| s@) =~= orig + Seq::new((nodes.len() - m) as nat, |i: int| Seq::<char>::empty()));
        }
    }
    DataFlowState { nodes }
}

/// The names of the sources of the edges into `idx`, in edge order.
fn source_names_exec(config: &DataFlowConfig, idx: usize) -> (r: Vec<String>)
    requires
        edges_in_bounds(config.nodes.len() as nat, config.edges@),
    ensures
        r@.map_values(|s: String| s@) == source_names(config, config.edges@, idx as nat),
{
    let mut out: Vec<String> = Vec::new();
    let len = config.edges.len();
    let mut i: usize = 0;
    while i < len
        invariant
            len == config.edges.len(),
            i <= len,
            edges_in_bounds(config.nodes.len() as nat, config.edges@),
            out@.map_values(|s: String| s@) == source_names(config, config.edges@.take(i as int), idx as nat),
        decreases len - i,
    {
        let e = config.edges[i];
        proof {
            assert(config.edges@.take(i + 1).drop_last() =~= config.edges@.take(i as int));
        }
        if e.to as usize == idx {
            let name = config.nodes[e.from as usize].name.clone();
            out.push(name);
            assert(out@.map_values(|s: String| s@) =~= source_names(config, config.edges@.take(i as int), idx as nat).push(name@));
        }
        i = i + 1;
    }
    assert(config.edges@.take(len as int) =~= config.edges@);
    out
}

} // verus!
