//! The agent registry: agents, their configuration and status, the selection and the
//! working directory.
use vstd::prelude::*;
use crate::text::{chars_of, owned, trimmed, trimmed_bytes_exceed, trimmed_len};
use vstd::utf8::encode_utf8;

verus! {

/// Lifecycle state of an agent.
#[derive(Clone, Copy, Debug, PartialEq, Eq, Hash, Structural)]
pub enum AgentStatus {
    Idle,
    Running,
    Stopped,
    Error,
}

/// Kind of command-line agent.
#[derive(Clone, Debug, PartialEq, Eq, Hash)]
pub enum AgentType {
    Gemini,
    AssistantCli,
    Generic,
    Other(String),
}

impl Default for AgentType {
    fn default() -> (r: Self)
        ensures
            r == AgentType::Generic,
    {
        AgentType::Generic
    }
}

impl AgentType {
    /// Name shown to users.
    pub fn display_name(&self) -> (r: String)
        ensures
            r@ == match self {
                AgentType::Gemini => "Gemini CLI"@,
                AgentType::AssistantCli => "Assistant CLI"@,
                AgentType::Generic => "Generic CLI"@,
                AgentType::Other(name) => name@,
            },
    {
        match self {
            AgentType::Gemini => owned("Gemini CLI"),
            AgentType::AssistantCli => owned("Assistant CLI"),
            AgentType::Generic => owned("Generic CLI"),
            AgentType::Other(name) => name.clone(),
        }
    }

    /// The built-in kinds.
    pub fn available_types() -> (r: Vec<AgentType>)
        ensures
            r@ == seq![AgentType::Gemini, AgentType::AssistantCli, AgentType::Generic],
    {
        let mut r: Vec<AgentType> = Vec::new();
        r.push(AgentType::Gemini);
        r.push(AgentType::AssistantCli);
        r.push(AgentType::Generic);
        proof {
            assert(r@ =~= seq![AgentType::Gemini, AgentType::AssistantCli, AgentType::Generic]);
        }
        r
    }
}

/// `c` is the default configuration of the kind `t`, given where the Gemini command was found.
pub open spec fn is_type_default(t: AgentType, gemini_path: Option<String>, c: AgentConfig) -> bool {
    &&& match t {
        AgentType::Gemini => c.command@ == (match gemini_path {
            Some(p) => p@,
            None => "gemini"@,
        }) && c.args@.len() == 1 && c.args@[0]@ == "--yolo"@,
        AgentType::AssistantCli => c.command@ == "assistant"@ && c.args.len() == 0,
        AgentType::Generic => c.command@.len() == 0 && c.args.len() == 0,
        AgentType::Other(cmd) => c.command@ == cmd@ && c.args.len() == 0,
    }
    &&& c.working_dir is None
    &&& c.env_vars.len() == 0
    &&& c.options.len() == 0
}

/// How an agent's command is run.
#[derive(Clone, Debug, PartialEq, Eq, Default)]
pub struct AgentConfig {
    pub command: String,
    pub args: Vec<String>,
    pub env_vars: Vec<(String, String)>,
    pub working_dir: Option<String>,
    pub options: Vec<(String, String)>,
}

impl AgentConfig {
    /// A configuration that runs `command` with nothing else set.
    pub fn new(command: String) -> (r: Self)
        ensures
            r.command == command,
            r.args.len() == 0,
            r.env_vars.len() == 0,
            r.working_dir is None,
            r.options.len() == 0,
    {
        AgentConfig { command, args: Vec::new(), env_vars: Vec::new(), working_dir: None, options: Vec::new() }
    }

    /// The default configuration of a kind of agent, given where the Gemini command was found
    /// (`gemini` on the search path when nowhere).
    pub fn for_type_with(agent_type: &AgentType, gemini_path: Option<String>) -> (r: Self)
        ensures
            is_type_default(*agent_type, gemini_path, r),
    {
        match agent_type {
            AgentType::Gemini => {
                let command = match gemini_path {
                    Some(p) => p,
                    None => owned("gemini"),
                };
                let mut args: Vec<String> = Vec::new();
                args.push(owned("--yolo"));
                AgentConfig { command, args, env_vars: Vec::new(), working_dir: None, options: Vec::new() }
            },
            AgentType::AssistantCli => AgentConfig::new(owned("assistant")),
            AgentType::Generic => AgentConfig::new(String::new()),
            AgentType::Other(cmd) => AgentConfig::new(cmd.clone()),
        }
    }

    /// The command must not be empty.
    pub fn validate(&self) -> (r: Result<(), String>)
        ensures
            r is Ok <==> self.command@.len() > 0,
            r matches Err(m) ==> m@ == "Command cannot be empty"@,
    {
        if self.command.as_str().is_empty() {
            return Err(owned("Command cannot be empty"));
        }
        Ok(())
    }
}

/// A command-line agent with its configuration and state.
#[derive(Clone, Debug, PartialEq, Eq)]
pub struct Agent {
    pub id: String,
    pub name: String,
    pub agent_type: AgentType,
    pub status: AgentStatus,
    pub config: AgentConfig,
}

impl Agent {
    /// An idle agent with the default configuration of its kind.
    pub fn new(id: String, name: String, agent_type: AgentType) -> (r: Self)
        ensures
            r.id == id,
            r.name == name,
            r.agent_type == agent_type,
            r.status == AgentStatus::Idle,
            is_type_default(agent_type, None, r.config),
    {
        let config = AgentConfig::for_type_with(&agent_type, None);
        Agent { id, name, agent_type, status: AgentStatus::Idle, config }
    }

    /// An idle agent with the given configuration.
    pub fn with_config(id: String, name: String, agent_type: AgentType, config: AgentConfig) -> (r: Self)
        ensures
            r.id == id,
            r.name == name,
            r.agent_type == agent_type,
            r.status == AgentStatus::Idle,
            r.config == config,
    {
        Agent { id, name, agent_type, status: AgentStatus::Idle, config }
    }

    /// The name must hold more than whitespace, and then the configuration must be valid.
    pub fn validate(&self) -> (r: Result<(), String>)
        ensures
            r is Ok <==> (trimmed(self.name@).len() > 0 && self.config.command@.len() > 0),
            r matches Err(m) ==> m@ == (if trimmed(self.name@).len() == 0 {
                "Agent name cannot be empty"@
            } else {
                "Command cannot be empty"@
            }),
    {
        if trimmed_len(self.name.as_str()) == 0 {
            return Err(owned("Agent name cannot be empty"));
        }
        self.config.validate()
    }
}

/// Preferences of the user interface.
#[derive(Clone, Debug)]
pub struct UiState {
    pub sidebar_visible: bool,
    pub terminal_visible: bool,
    pub working_directory: Option<String>,
}

impl Default for UiState {
    fn default() -> (r: Self)
        ensures
            r.sidebar_visible,
            r.terminal_visible,
            r.working_directory is None,
    {
        UiState { sidebar_visible: true, terminal_visible: true, working_directory: None }
    }
}

/// Lexicographic order of character sequences, by code point.
pub open spec fn seq_less(a: Seq<char>, b: Seq<char>) -> bool
    decreases a.len(),
{
    if a.len() == 0 {
        b.len() > 0
    } else if b.len() == 0 {
        false
    } else if a[0] < b[0] {
        true
    } else if a[0] == b[0] {
        seq_less(a.drop_first(), b.drop_first())
    } else {
        false
    }
}

proof fn lemma_seq_less_transitive(a: Seq<char>, b: Seq<char>, c: Seq<char>)
    requires
        seq_less(a, b),
        seq_less(b, c),
    ensures
        seq_less(a, c),
    decreases a.len(),
{
    if a.len() > 0 && b.len() > 0 && c.len() > 0 && a[0] == b[0] && b[0] == c[0] {
        lemma_seq_less_transitive(a.drop_first(), b.drop_first(), c.drop_first());
    }
}

proof fn lemma_seq_less_irreflexive(a: Seq<char>)
    ensures
        !seq_less(a, a),
    decreases a.len(),
{
    if a.len() > 0 {
        lemma_seq_less_irreflexive(a.drop_first());
    }
}

proof fn lemma_seq_less_total(a: Seq<char>, b: Seq<char>)
    ensures
        seq_less(a, b) || seq_less(b, a) || a == b,
    decreases a.len(),
{
    if a.len() > 0 && b.len() > 0 && a[0] == b[0] {
        lemma_seq_less_total(a.drop_first(), b.drop_first());
        if a.drop_first() == b.drop_first() {
            assert(a =~= seq![a[0]] + a.drop_first());
            assert(b =~= seq![b[0]] + b.drop_first());
        }
    } else if a.len() == 0 && b.len() == 0 {
        assert(a =~= b);
    }
}

/// Whether `a` comes before `b` in [`seq_less`] order.
fn str_less(a: &String, b: &String) -> (r: bool)
    ensures
        r == seq_less(a@, b@),
{
    let x = chars_of(a.as_str());
    let y = chars_of(b.as_str());
    let mut i: usize = 0;
    proof {
        assert(x@.subrange(0, x.len() as int) =~= x@);
        assert(y@.subrange(0, y.len() as int) =~= y@);
    }
    while i < x.len() && i < y.len() && x[i] == y[i]
        invariant
            i <= x.len(),
            i <= y.len(),
            x@.subrange(0, i as int) == y@.subrange(0, i as int),
            seq_less(a@, b@) == seq_less(x@.subrange(i as int, x.len() as int), y@.subrange(i as int, y.len() as int)),
            x@ == a@,
            y@ == b@,
        decreases x.len() - i,
    {
        proof {
            let xs = x@.subrange(i as int, x.len() as int);
            let ys = y@.subrange(i as int, y.len() as int);
            assert(xs.drop_first() =~= x@.subrange(i + 1, x.len() as int));
            assert(ys.drop_first() =~= y@.subrange(i + 1, y.len() as int));
            assert(x@.subrange(0, i + 1) =~= x@.subrange(0, i as int).push(x@[i as int]));
            assert(y@.subrange(0, i + 1) =~= y@.subrange(0, i as int).push(y@[i as int]));
        }
        i = i + 1;
    }
    if i == x.len() {
        i < y.len()
    } else if i == y.len() {
        false
    } else {
        x[i] < y[i]
    }
}

/// The whole application state.
#[derive(Clone, Debug)]
pub struct AppState {
    /// The agents, at most one per id, in order of registration.
    pub agents: Vec<Agent>,
    pub selected_agent_id: Option<String>,
    pub ui_state: UiState,
}

/// Index of the agent with this id.
pub open spec fn agent_index(agents: Seq<Agent>, id: Seq<char>) -> Option<int> {
    if exists|i: int| 0 <= i < agents.len() && (#[trigger] agents[i]).id@ == id {
        Some(choose|i: int| 0 <= i < agents.len() && (#[trigger] agents[i]).id@ == id)
    } else {
        None
    }
}

impl AppState {
    /// No two agents share an id.
    pub open spec fn wf(&self) -> bool {
        forall|i: int, j: int|
            0 <= i < self.agents.len() && 0 <= j < self.agents.len() && i != j ==> (
            #[trigger] self.agents@[i]).id@ != (#[trigger] self.agents@[j]).id@
    }

    pub open spec fn has_agent(&self, id: Seq<char>) -> bool {
        exists|i: int| 0 <= i < self.agents.len() && (#[trigger] self.agents@[i]).id@ == id
    }

    /// An empty registry with default preferences.
    pub fn new() -> (r: Self)
        ensures
            r.wf(),
            r.agents.len() == 0,
            r.selected_agent_id is None,
            r.ui_state.working_directory is None,
    {
        AppState { agents: Vec::new(), selected_agent_id: None, ui_state: UiState::default() }
    }

    fn find(&self, id: &String) -> (r: Option<usize>)
        ensures
            match r {
                Some(i) => i < self.agents.len() && self.agents@[i as int].id@ == id@,
                None => !self.has_agent(id@),
            },
    {
        let mut i: usize = 0;
        while i < self.agents.len()
            invariant
                i <= self.agents.len(),
                forall|j: int| 0 <= j < i ==> (#[trigger] self.agents@[j]).id@ != id@,
            decreases self.agents.len() - i,
        {
            if self.agents[i].id == *id {
                return Some(i);
            }
            i = i + 1;
        }
        None
    }

    /// The selected agent, if the selection names one.
    pub fn selected_agent(&self) -> (r: Option<&Agent>)
        requires
            self.wf(),
        ensures
            match r {
                Some(a) => self.selected_agent_id is Some && a.id@ == self.selected_agent_id->0@
                    && exists|i: int| 0 <= i < self.agents.len() && self.agents@[i] == *a,
                None => self.selected_agent_id is None || !self.has_agent(self.selected_agent_id->0@),
            },
    {
        match &self.selected_agent_id {
            None => None,
            Some(id) => match self.find(id) {
                Some(i) => Some(&self.agents[i]),
                None => None,
            },
        }
    }

    /// Selects the agent with this id, if there is one.
    pub fn select_agent(&mut self, id: &String) -> (r: bool)
        requires
            old(self).wf(),
        ensures
            final(self).wf(),
            r == old(self).has_agent(id@),
            final(self).agents == old(self).agents,
            final(self).selected_agent_id == if r { Some(*id) } else { old(self).selected_agent_id },
            final(self).ui_state == old(self).ui_state,
    {
        match self.find(id) {
            Some(_) => {
                self.selected_agent_id = Some(id.clone());
                true
            },
            None => false,
        }
    }

    /// Clears the selection.
    pub fn deselect_agent(&mut self)
        ensures
            final(self).selected_agent_id is None,
            final(self).agents == old(self).agents,
            final(self).ui_state == old(self).ui_state,
    {
        self.selected_agent_id = None;
    }

    /// Registers an agent unless its id is taken.
    pub fn add_agent(&mut self, agent: Agent) -> (r: bool)
        requires
            old(self).wf(),
        ensures
            final(self).wf(),
            r == !old(self).has_agent(agent.id@),
            final(self).agents@ == if r { old(self).agents@.push(agent) } else { old(self).agents@ },
            final(self).selected_agent_id == old(self).selected_agent_id,
            final(self).ui_state == old(self).ui_state,
    {
        match self.find(&agent.id) {
            Some(_) => false,
            None => {
                self.agents.push(agent);
                true
            },
        }
    }

    /// Removes the agent with this id; a selection of it is cleared.
    pub fn remove_agent(&mut self, id: &String) -> (r: Option<Agent>)
        requires
            old(self).wf(),
        ensures
            final(self).wf(),
            r is Some == old(self).has_agent(id@),
            r matches Some(a) ==> a.id@ == id@ && exists|i: int|
                0 <= i < old(self).agents.len() && old(self).agents@[i] == a
                    && final(self).agents@ == old(self).agents@.remove(i),
            r is None ==> final(self).agents == old(self).agents,
            !final(self).has_agent(id@),
            final(self).selected_agent_id == if old(self).selected_agent_id is Some
                && old(self).selected_agent_id->0@ == id@ {
                None
            } else {
                old(self).selected_agent_id
            },
            final(self).ui_state == old(self).ui_state,
    {
        let removed = match self.find(id) {
            Some(i) => {
                let ghost before = self.agents@;
                let a = self.agents.remove(i);
                proof {
                    assert forall|j: int| 0 <= j < self.agents.len() implies (#[trigger] self.agents@[j]).id@ != id@ by {
                        if j < i {
                            assert(self.agents@[j] == before[j]);
                        } else {
                            assert(self.agents@[j] == before[j + 1]);
                        }
                    }
                }
                Some(a)
            },
            None => None,
        };
        let clear = match &self.selected_agent_id {
            Some(s) => *s == *id,
            None => false,
        };
        if clear {
            self.selected_agent_id = None;
        }
        removed
    }

    /// Indices of the agents ordered by name; agents with equal names keep registration order.
    fn name_order(&self) -> (r: Vec<usize>)
        ensures
            r.len() == self.agents.len(),
            forall|j: int| 0 <= j < r.len() ==> (#[trigger] r@[j] as int) < self.agents.len(),
            forall|a: int, b: int| 0 <= a < b < r.len() ==> #[trigger] r@[a] != #[trigger] r@[b],
            forall|a: int, b: int|
                0 <= a < b < r.len() ==> !seq_less(
                    (#[trigger] self.agents@[r@[b] as int]).name@,
                    (#[trigger] self.agents@[r@[a] as int]).name@,
                ),
    {
        let mut r: Vec<usize> = Vec::new();
        let n = self.agents.len();
        let mut i: usize = 0;
        while i < n
            invariant
                n == self.agents.len(),
                i <= n,
                r.len() == i,
                forall|j: int| 0 <= j < r.len() ==> (#[trigger] r@[j] as int) < i,
                forall|a: int, b: int| 0 <= a < b < r.len() ==> #[trigger] r@[a] != #[trigger] r@[b],
                forall|a: int, b: int|
                    0 <= a < b < r.len() ==> !seq_less(
                        (#[trigger] self.agents@[r@[b] as int]).name@,
                        (#[trigger] self.agents@[r@[a] as int]).name@,
                    ),
            decreases n - i,
        {
            let mut p: usize = 0;
            while p < r.len() && !str_less(&self.agents[i].name, &self.agents[r[p]].name)
                invariant
                    n == self.agents.len(),
                    i < n,
                    p <= r.len(),
                    forall|j: int| 0 <= j < r.len() ==> (#[trigger] r@[j] as int) < i,
                    forall|j: int| 0 <= j < p ==> !seq_less(self.agents@[i as int].name@, (#[trigger] self.agents@[r@[j] as int]).name@),
                decreases r.len() - p,
            {
                p = p + 1;
            }
            let ghost old_r = r@;
            r.insert(p, i);
            proof {
                assert forall|j: int| 0 <= j < r.len() implies (#[trigger] r@[j] as int) < i + 1 by {
                    if j < p { assert(r@[j] == old_r[j]); } else if j > p { assert(r@[j] == old_r[j - 1]); }
                }
                assert forall|a: int, b: int| 0 <= a < b < r.len() implies #[trigger] r@[a] != #[trigger] r@[b] by {
                    if a < p && b < p { assert(r@[a] == old_r[a] && r@[b] == old_r[b]); }
                    else if a < p && b > p { assert(r@[a] == old_r[a] && r@[b] == old_r[b - 1]); }
                    else if a > p { assert(r@[a] == old_r[a - 1] && r@[b] == old_r[b - 1]); }
                    else if a == p { assert(r@[b] == old_r[b - 1]); }
                    else { assert(r@[a] == old_r[a]); }
                }
                let ni = self.agents@[i as int].name@;
                assert forall|a: int, b: int|
                    0 <= a < b < r.len() implies !seq_less(
                        (#[trigger] self.agents@[r@[b] as int]).name@,
                        (#[trigger] self.agents@[r@[a] as int]).name@,
                    ) by {
                    if a < p && b < p {
                        assert(r@[a] == old_r[a] && r@[b] == old_r[b]);
                    } else if a > p {
                        assert(r@[a] == old_r[a - 1] && r@[b] == old_r[b - 1]);
                    } else if a < p && b == p {
                        assert(r@[a] == old_r[a]);
                    } else if a < p && b > p {
                        assert(r@[a] == old_r[a] && r@[b] == old_r[b - 1]);
                    } else {
                        // a == p < b
                        assert(r@[b] == old_r[b - 1]);
                        let nb = self.agents@[old_r[b - 1] as int].name@;
                        let np = self.agents@[old_r[p as int] as int].name@;
                        assert(seq_less(ni, np));
                        if seq_less(nb, ni) {
                            lemma_seq_less_transitive(nb, ni, np);
                            if b - 1 > p {
                                assert(!seq_less(nb, np));
                            } else {
                                lemma_seq_less_irreflexive(np);
                            }
                        }
                    }
                }
            }
            i = i + 1;
        }
        r
    }

    /// All agents, ordered by name.
    pub fn agents_list(&self) -> (r: Vec<&Agent>)
        ensures
            r.len() == self.agents.len(),
            forall|a: int, b: int| 0 <= a < b < r.len() ==> !seq_less((#[trigger] r@[b]).name@, (#[trigger] r@[a]).name@),
            exists|order: Seq<int>| #![trigger order.len()]
                order.len() == r.len() && (forall|j: int| 0 <= j < order.len() ==> 0 <= #[trigger] order[j] < self.agents.len()
                    && *r@[j] == self.agents@[order[j]]) && forall|a: int, b: int|
                    0 <= a < b < order.len() ==> #[trigger] order[a] != #[trigger] order[b],
    {
        let order = self.name_order();
        let mut r: Vec<&Agent> = Vec::new();
        let mut j: usize = 0;
        while j < order.len()
            invariant
                j <= order.len(),
                order.len() == self.agents.len(),
                r.len() == j,
                forall|m: int| 0 <= m < order.len() ==> (#[trigger] order@[m] as int) < self.agents.len(),
                forall|m: int| 0 <= m < j ==> *(#[trigger] r@[m]) == self.agents@[order@[m] as int],
            decreases order.len() - j,
        {
            r.push(&self.agents[order[j]]);
            j = j + 1;
        }
        proof {
            let o = order@.map_values(|x: usize| x as int);
            assert(o.len() == r.len());
            assert forall|a: int, b: int| 0 <= a < b < r.len() implies !seq_less((#[trigger] r@[b]).name@, (#[trigger] r@[a]).name@) by {
                assert(self.agents@[order@[b] as int].name@ == r@[b].name@);
            }
        }
        r
    }

    /// Sets the status of the agent with this id, if there is one.
    pub fn update_agent_status(&mut self, id: &String, status: AgentStatus) -> (r: bool)
        requires
            old(self).wf(),
        ensures
            final(self).wf(),
            r == old(self).has_agent(id@),
            final(self).agents.len() == old(self).agents.len(),
            forall|i: int| 0 <= i < old(self).agents.len() ==> #[trigger] final(self).agents@[i] == if old(self).agents@[i].id@ == id@ {
                Agent { status, ..old(self).agents@[i] }
            } else {
                old(self).agents@[i]
            },
            final(self).selected_agent_id == old(self).selected_agent_id,
            final(self).ui_state == old(self).ui_state,
    {
        match self.find(id) {
            Some(i) => {
                let mut a = self.agents.remove(i);
                a.status = status;
                self.agents.insert(i, a);
                true
            },
            None => false,
        }
    }

    /// Replaces the agent with this id by `updated`, if there is one and `updated` keeps the id.
    pub fn update_agent(&mut self, id: &String, updated: Agent) -> (r: bool)
        requires
            old(self).wf(),
        ensures
            final(self).wf(),
            r == (old(self).has_agent(id@) && updated.id@ == id@),
            final(self).agents.len() == old(self).agents.len(),
            forall|i: int| 0 <= i < old(self).agents.len() ==> #[trigger] final(self).agents@[i] == if r && old(self).agents@[i].id@ == id@ {
                updated
            } else {
                old(self).agents@[i]
            },
            final(self).selected_agent_id == old(self).selected_agent_id,
            final(self).ui_state == old(self).ui_state,
    {
        match self.find(id) {
            Some(i) => {
                if updated.id != *id {
                    return false;
                }
                self.agents.set(i, updated);
                true
            },
            None => false,
        }
    }

    /// The agent with this id, for changing it in place.
    pub fn get_agent_mut(&mut self, id: &String) -> (r: Option<&mut Agent>)
        requires
            old(self).wf(),
        ensures
            r is Some == old(self).has_agent(id@),
            r matches Some(a) ==> a.id@ == id@,
    {
        match self.find(id) {
            Some(i) => Some(&mut self.agents[i]),
            None => None,
        }
    }

    /// Number of registered agents.
    pub fn agent_count(&self) -> (r: usize)
        ensures
            r == self.agents.len(),
    {
        self.agents.len()
    }

    /// Sets or clears the working directory.
    pub fn set_working_directory(&mut self, path: Option<String>)
        ensures
            final(self).ui_state.working_directory == path,
            final(self).ui_state.sidebar_visible == old(self).ui_state.sidebar_visible,
            final(self).ui_state.terminal_visible == old(self).ui_state.terminal_visible,
            final(self).agents == old(self).agents,
            final(self).selected_agent_id == old(self).selected_agent_id,
    {
        self.ui_state.working_directory = path;
    }

    /// The working directory, if one is set.
    pub fn working_directory(&self) -> (r: Option<&String>)
        ensures
            r == match &self.ui_state.working_directory {
                Some(w) => Some(w),
                None => None::<&String>,
            },
    {
        match &self.ui_state.working_directory {
            Some(w) => Some(w),
            None => None,
        }
    }
}

/// Gives the agent the state's working directory, when one is set.
pub fn apply_working_directory_context(agent: &mut Agent, state: &AppState)
    ensures
        final(agent).config.working_dir == match state.ui_state.working_directory {
            Some(w) => Some(w),
            None => old(agent).config.working_dir,
        },
        final(agent).id == old(agent).id,
        final(agent).name == old(agent).name,
        final(agent).status == old(agent).status,
        final(agent).agent_type == old(agent).agent_type,
        final(agent).config.command == old(agent).config.command,
{
    if let Some(dir) = state.working_directory() {
        agent.config.working_dir = Some(dir.clone());
    }
}

/// Longest query, in characters once trimmed.
pub const MAX_QUERY_LENGTH: usize = 10000;

/// A query is refused when it holds only whitespace, or when it is longer than
/// [`MAX_QUERY_LENGTH`] bytes of UTF-8 once trimmed.
pub fn validate_query(query: &str) -> (r: Result<(), String>)
    ensures
        r is Ok <==> (trimmed(query@).len() > 0 && encode_utf8(trimmed(query@)).len() <= MAX_QUERY_LENGTH),
        r matches Err(m) ==> m@ == (if trimmed(query@).len() == 0 {
            "Query cannot be empty"@
        } else {
            "Query exceeds maximum length of 10000 characters"@
        }),
{
    if trimmed_len(query) == 0 {
        return Err(owned("Query cannot be empty"));
    }
    if trimmed_bytes_exceed(query, MAX_QUERY_LENGTH) {
        return Err(owned("Query exceeds maximum length of 10000 characters"));
    }
    Ok(())
}

} // verus!
