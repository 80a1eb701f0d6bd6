//! The command façade of the system: commands with JSON parameters answered
//! with JSON, over named sessions.
use vstd::prelude::*;
use crate::json::{JVal, Json, obj_get, obj_of, get_view, jstr};
use crate::text::str_eq;
use crate::json_parse::{obj_insert, key_less};
use crate::json_text::{keys_sorted, key_lt};

verus! {

/// The message for a command on a session that does not exist.
pub open spec fn missing_session_message(id: Seq<char>) -> Seq<char> {
    "session inconnue : '"@ + id + "' (appelez d'abord 'create')"@
}

/// The message for resetting a session that does not exist.
pub open spec fn unknown_session_message(id: Seq<char>) -> Seq<char> {
    "session inconnue : '"@ + id + "'"@
}

/// Inserting under a key that is present replaces that entry in place.
pub proof fn lemma_obj_insert_existing<V>(es: Seq<(Seq<char>, V)>, i: int)
    requires
        keys_sorted(es),
        0 <= i < es.len(),
    ensures
        forall|v: V| #[trigger] obj_insert(es, es[i].0, v) == es.update(i, (es[i].0, v)),
{
    let k = es[i].0;
    crate::json_laws::lemma_lower_bound(es, k, 0);
    let lb = crate::json_parse::lower_bound(es, k, 0);
    crate::json_text::lemma_key_lt_irreflexive(k);
    if lb < i {
        assert(key_lt(es[lb].0, es[i].0));
    }
    if lb > i {
        assert(key_lt(es[i].0, k));
    }
    assert(lb == i);
}


/// Sessions kept by name, in the order of their names, each name once.
pub struct SessionStore<S> {
    ids: Vec<String>,
    sessions: Vec<S>,
}

impl<S> View for SessionStore<S> {
    type V = Seq<(Seq<char>, S)>;

    closed spec fn view(&self) -> Seq<(Seq<char>, S)> {
        Seq::new(self.ids@.len(), |i: int| (self.ids@[i]@, self.sessions@[i]))
    }
}

impl<S> SessionStore<S> {
    #[verifier::type_invariant]
    closed spec fn sorted(self) -> bool {
        &&& self.ids@.len() == self.sessions@.len()
        &&& forall|i: int, j: int| 0 <= i < j < self.ids@.len() ==> key_lt(#[trigger] self.ids@[i]@, #[trigger] self.ids@[j]@)
    }

    /// The names are sorted, each once.
    proof fn lemma_view_sorted(self)
        requires
            self.sorted(),
        ensures
            keys_sorted(self@),
    {
        assert forall|i: int, j: int| 0 <= i < j < self@.len() implies key_lt(#[trigger] self@[i].0, #[trigger] self@[j].0) by {
            assert(self@[i].0 == self.ids@[i]@);
            assert(self@[j].0 == self.ids@[j]@);
        }
    }

    /// Number of sessions.
    pub fn len(&self) -> (n: usize)
        ensures
            n == self@.len(),
            keys_sorted(self@),
    {
        proof {
            use_type_invariant(self);
            self.lemma_view_sorted();
        }
        self.ids.len()
    }

    /// Position of the session named `id`, if there is one.
    pub fn find(&self, id: &str) -> (r: Option<usize>)
        ensures
            match r {
                Some(i) => i < self@.len() && self@[i as int].0 == id@ && obj_get(self@, id@) == Some(self@[i as int].1),
                None => obj_get(self@, id@) is None && forall|j: int| 0 <= j < self@.len() ==> (#[trigger] self@[j]).0 != id@,
            },
            keys_sorted(self@),
    {
        proof {
            use_type_invariant(self);
            self.lemma_view_sorted();
        }
        let k = String::from_str(id);
        let mut i: usize = 0;
        while i < self.ids.len()
            invariant
                i <= self.ids@.len(),
                self.ids@.len() == self.sessions@.len(),
                k@ == id@,
                keys_sorted(self@),
                forall|j: int| 0 <= j < i ==> (#[trigger] self@[j]).0 != id@,
            decreases self.ids@.len() - i,
        {
            if self.ids[i] == k {
                proof {
                    crate::json_laws::lemma_obj_get_at(self@, i as int);
                }
                return Some(i);
            }
            i = i + 1;
        }
        proof {
            crate::json_laws::lemma_obj_get_absent(self@, id@);
        }
        None
    }

    /// The name of the session at position `i`.
    pub fn id_at(&self, i: usize) -> (r: &str)
        requires
            i < self@.len(),
        ensures
            r@ == self@[i as int].0,
    {
        proof { use_type_invariant(self); }
        self.ids[i].as_str()
    }

    /// The session at position `i`.
    pub fn session_at(&self, i: usize) -> (r: &S)
        requires
            i < self@.len(),
        ensures
            *r == self@[i as int].1,
    {
        proof { use_type_invariant(self); }
        &self.sessions[i]
    }

    /// The session named `id`, if there is one.
    pub fn get(&self, id: &str) -> (r: Option<&S>)
        ensures
            match obj_get(self@, id@) {
                Some(x) => r matches Some(y) && *y == x,
                None => r is None,
            },
    {
        match self.find(id) {
            Some(i) => Some(self.session_at(i)),
            None => None,
        }
    }

    /// The session named `id`, for changes; an error naming it when there is
    /// none.
    pub fn session_mut(&mut self, id: &str) -> (r: Result<&mut S, String>)
        ensures
            match obj_get(old(self)@, id@) {
                Some(x) => r matches Ok(y) && *y == x && final(self)@ == obj_insert(old(self)@, id@, *final(y)),
                None => r matches Err(m) && m@ == missing_session_message(id@) && final(self)@ == old(self)@,
            },
    {
        match self.find(id) {
            Some(i) => {
                proof {
                    let ghost es = self@;
                    lemma_obj_insert_existing(es, i as int);
                }
                Ok(self.get_mut(i))
            },
            None => {
                let mut m = String::from_str("session inconnue : '");
                m.append(id);
                m.append("' (appelez d'abord 'create')");
                Err(m)
            },
        }
    }

    /// Stores `s` under `id`, replacing the session of that name if there is
    /// one, else adding it in name order.
    pub fn insert(&mut self, id: String, s: S)
        ensures
            final(self)@ == obj_insert(old(self)@, id@, s),
    {
        proof {
            use_type_invariant(&*self);
            self.lemma_view_sorted();
        }
        let ghost es = self@;
        let mut old_store = SessionStore::new();
        std::mem::swap(&mut old_store, self);
        proof { use_type_invariant(&old_store); }
        let SessionStore { mut ids, mut sessions } = old_store;
        let kc = crate::text::str_chars(id.as_str());
        let mut i: usize = 0;
        while i < ids.len() && key_less(&crate::text::str_chars(ids[i].as_str()), &kc)
            invariant
                i <= ids@.len(),
                ids@.len() == sessions@.len(),
                es == Seq::new(ids@.len(), |j: int| (ids@[j]@, sessions@[j])),
                kc@ == id@,
                crate::json_parse::lower_bound(es, id@, 0) == crate::json_parse::lower_bound(es, id@, i as int),
            decreases ids@.len() - i,
        {
            i = i + 1;
        }
        let ghost ids0 = ids@;
        let ghost ss0 = sessions@;
        if i < ids.len() && ids[i] == id {
            sessions.set(i, s);
            assert(Seq::new(ids@.len(), |j: int| (ids@[j]@, sessions@[j])) =~= obj_insert(es, id@, s));
        } else {
            ids.insert(i, id);
            sessions.insert(i, s);
            assert(Seq::new(ids@.len(), |j: int| (ids@[j]@, sessions@[j])) =~= obj_insert(es, id@, s));
        }
        proof {
            crate::json_laws::lemma_obj_insert_sorted_keys(es, id@, s);
            let r = obj_insert(es, id@, s);
            assert forall|a: int, b: int| 0 <= a < b < ids@.len() implies key_lt(#[trigger] ids@[a]@, #[trigger] ids@[b]@) by {
                assert(r[a].0 == ids@[a]@);
                assert(r[b].0 == ids@[b]@);
            }
        }
        *self = SessionStore { ids, sessions };
    }

    /// No session.
    pub fn new() -> (r: SessionStore<S>)
        ensures
            r@ == Seq::<(Seq<char>, S)>::empty(),
    {
        let r = SessionStore { ids: Vec::new(), sessions: Vec::new() };
        assert(r@ =~= Seq::<(Seq<char>, S)>::empty());
        r
    }

    /// The session named `id`, for changes.
    pub fn get_mut(&mut self, i: usize) -> (r: &mut S)
        requires
            i < old(self)@.len(),
        ensures
            *r == old(self)@[i as int].1,
            final(self)@ == old(self)@.update(i as int, (old(self)@[i as int].0, *final(r))),
    {
        proof { use_type_invariant(&*self); }
        &mut self.sessions[i]
    }
}

// ----------------------------------------------------------------------- //
// Commands and parameters
// ----------------------------------------------------------------------- //

/// A command of the façade.
#[derive(Clone, Copy, Debug, PartialEq, Eq, Structural)]
pub enum Command {
    Describe,
    Create,
    Step,
    Run,
    State,
    Export,
    Reset,
    ListSessions,
}

/// The command of a name, if it names one.
pub open spec fn command_named(name: Seq<char>) -> Option<Command> {
    if name == "describe"@ {
        Some(Command::Describe)
    } else if name == "create"@ {
        Some(Command::Create)
    } else if name == "step"@ {
        Some(Command::Step)
    } else if name == "run"@ {
        Some(Command::Run)
    } else if name == "state"@ {
        Some(Command::State)
    } else if name == "export"@ {
        Some(Command::Export)
    } else if name == "reset"@ {
        Some(Command::Reset)
    } else if name == "list_sessions"@ {
        Some(Command::ListSessions)
    } else {
        None
    }
}

/// The command named `name`; an unknown name is an error that quotes it.
pub fn parse_command(name: &str) -> (r: Result<Command, String>)
    ensures
        match command_named(name@) {
            Some(c) => r matches Ok(d) && d == c,
            None => r matches Err(m) && m@ == "commande inconnue : '"@ + name@ + "'"@,
        },
{
    if str_eq(name, "describe") {
        Ok(Command::Describe)
    } else if str_eq(name, "create") {
        Ok(Command::Create)
    } else if str_eq(name, "step") {
        Ok(Command::Step)
    } else if str_eq(name, "run") {
        Ok(Command::Run)
    } else if str_eq(name, "state") {
        Ok(Command::State)
    } else if str_eq(name, "export") {
        Ok(Command::Export)
    } else if str_eq(name, "reset") {
        Ok(Command::Reset)
    } else if str_eq(name, "list_sessions") {
        Ok(Command::ListSessions)
    } else {
        let mut m = String::from_str("commande inconnue : '");
        m.append(name);
        m.append("'");
        Err(m)
    }
}

/// The text of parameter `key` when it is a string, else `default`.
pub open spec fn str_param(params: JVal, key: Seq<char>, default: Seq<char>) -> Seq<char> {
    match get_view(params, key) {
        Some(JVal::Str(s)) => s,
        _ => default,
    }
}

/// The text of parameter `key` when it is a string, else `default`.
pub fn str_param_or(params: &Json, key: &str, default: &str) -> (r: String)
    ensures
        r@ == str_param(params@, key@, default@),
{
    match params.get(key) {
        Some(v) => match v.as_str() {
            Some(s) => String::from_str(s),
            None => String::from_str(default),
        },
        None => String::from_str(default),
    }
}

/// The session a command is about: parameter `id`, else `default`.
pub fn session_id(params: &Json) -> (r: String)
    ensures
        r@ == str_param(params@, "id"@, "default"@),
{
    str_param_or(params, "id", "default")
}

/// The formats of an exported trajectory.
#[derive(Clone, Copy, Debug, PartialEq, Eq, Structural)]
pub enum ExportFormat {
    Csv,
    Json,
}

/// The format asked by parameter `format` (JSON by default); another name
/// is an error that quotes it.
pub fn export_format(params: &Json) -> (r: Result<ExportFormat, String>)
    ensures
        ({
            let f = str_param(params@, "format"@, "json"@);
            if f == "csv"@ {
                r matches Ok(x) && x == ExportFormat::Csv
            } else if f == "json"@ {
                r matches Ok(x) && x == ExportFormat::Json
            } else {
                r matches Err(m) && m@ == "format inconnu : '"@ + f + "' (csv|json)"@
            }
        }),
{
    let f = str_param_or(params, "format", "json");
    if str_eq(f.as_str(), "csv") {
        Ok(ExportFormat::Csv)
    } else if str_eq(f.as_str(), "json") {
        Ok(ExportFormat::Json)
    } else {
        let mut m = String::from_str("format inconnu : '");
        m.append(f.as_str());
        m.append("' (csv|json)");
        Err(m)
    }
}

/// The meta-optimiser of an agent, with its integer settings; its
/// floating-point settings are read by the caller.
#[derive(Clone, Copy, Debug, PartialEq, Eq, Structural)]
pub enum OptimizerChoice {
    /// Separable CMA-ES: population (0 picks the default), generations, seed.
    Cma { population: usize, generations: usize, seed: u64 },
    /// Random neighbourhood search: candidates per revision, seed.
    Random { candidates: usize, seed: u64 },
}

/// The optimiser named `name`: `cma`, `cma-es` and `sep-cma-es` give CMA-ES
/// (population 0 and 10 generations by default), `random` and
/// `neighborhood` the random search (48 candidates by default); each derives
/// its seed from the agent's. Another name is an error that quotes it.
pub open spec fn optimizer_view(
    name: Seq<char>,
    population: Option<usize>,
    generations: Option<usize>,
    candidates: Option<usize>,
    seed: u64,
) -> Result<OptimizerChoice, Seq<char>> {
    if name == "cma"@ || name == "cma-es"@ || name == "sep-cma-es"@ {
        Ok(
            OptimizerChoice::Cma {
                population: population.unwrap_or(0),
                generations: generations.unwrap_or(10),
                seed: seed ^ 0xC3A,
            },
        )
    } else if name == "random"@ || name == "neighborhood"@ {
        Ok(OptimizerChoice::Random { candidates: candidates.unwrap_or(48), seed: seed ^ 0xABCD })
    } else {
        Err("optimiseur inconnu : '"@ + name + "' (random|cma)"@)
    }
}

/// Chooses the optimiser (see [`optimizer_view`]).
pub fn optimizer_choice(
    name: &str,
    population: Option<usize>,
    generations: Option<usize>,
    candidates: Option<usize>,
    seed: u64,
) -> (r: Result<OptimizerChoice, String>)
    ensures
        match optimizer_view(name@, population, generations, candidates, seed) {
            Ok(c) => r matches Ok(d) && d == c,
            Err(m) => r matches Err(e) && e@ == m,
        },
{
    if str_eq(name, "cma") || str_eq(name, "cma-es") || str_eq(name, "sep-cma-es") {
        Ok(
            OptimizerChoice::Cma {
                population: match population {
                    Some(p) => p,
                    None => 0,
                },
                generations: match generations {
                    Some(g) => g,
                    None => 10,
                },
                seed: seed ^ 0xC3A,
            },
        )
    } else if str_eq(name, "random") || str_eq(name, "neighborhood") {
        Ok(
            OptimizerChoice::Random {
                candidates: match candidates {
                    Some(c) => c,
                    None => 48,
                },
                seed: seed ^ 0xABCD,
            },
        )
    } else {
        let mut m = String::from_str("optimiseur inconnu : '");
        m.append(name);
        m.append("' (random|cma)");
        Err(m)
    }
}

/// The integer sizes of a new agent.
#[derive(Clone, Copy, Debug, PartialEq, Eq, Structural)]
pub struct AgentSizes {
    pub seed: u64,
    /// Dimension of each component of the state (at least 1).
    pub dim: usize,
    /// Number of sampled tasks (at least 16).
    pub n_tasks: usize,
    /// Dimension of the hardware vector (at least 1).
    pub n_hardware: usize,
    /// Dimension of the software vector (at least 1).
    pub n_software: usize,
}

/// `x`, or `default` when absent, raised to `floor`.
pub open spec fn size_or(x: Option<usize>, default: usize, floor: usize) -> usize {
    let v = x.unwrap_or(default);
    if v < floor { floor } else { v }
}

/// The sizes of a new agent from the given parameters: seed 2026, dimension
/// 6, 1024 tasks, 4 hardware and 4 software components by default, with the
/// floors of [`AgentSizes`].
pub fn agent_sizes(
    seed: Option<u64>,
    dim: Option<usize>,
    n_tasks: Option<usize>,
    n_hardware: Option<usize>,
    n_software: Option<usize>,
) -> (r: AgentSizes)
    ensures
        r.seed == seed.unwrap_or(2026),
        r.dim == size_or(dim, 6, 1),
        r.n_tasks == size_or(n_tasks, 1024, 16),
        r.n_hardware == size_or(n_hardware, 4, 1),
        r.n_software == size_or(n_software, 4, 1),
{
    let s = match seed {
        Some(s) => s,
        None => 2026,
    };
    let d = match dim {
        Some(d) => d,
        None => 6,
    };
    let t = match n_tasks {
        Some(t) => t,
        None => 1024,
    };
    let h = match n_hardware {
        Some(h) => h,
        None => 4,
    };
    let w = match n_software {
        Some(w) => w,
        None => 4,
    };
    AgentSizes {
        seed: s,
        dim: if d < 1 { 1 } else { d },
        n_tasks: if t < 16 { 16 } else { t },
        n_hardware: if h < 1 { 1 } else { h },
        n_software: if w < 1 { 1 } else { w },
    }
}

/// The optimiser keeps the settings it is given and uses its defaults only
/// for those left out: random search (`random`, `neighborhood`) takes the
/// given candidate count, else 48; CMA-ES (`cma`, `cma-es`, `sep-cma-es`)
/// takes the given population and generations, else 0 and 10; the seed of
/// each is the agent's, mixed with a constant of its own.
pub proof fn law_optimizer_keeps_settings(
    name: Seq<char>,
    population: Option<usize>,
    generations: Option<usize>,
    candidates: Option<usize>,
    seed: u64,
)
    ensures
        (name == "random"@ || name == "neighborhood"@) ==> optimizer_view(
            name,
            population,
            generations,
            candidates,
            seed,
        ) == Ok::<OptimizerChoice, Seq<char>>(
            OptimizerChoice::Random {
                candidates: match candidates {
                    Some(c) => c,
                    None => 48usize,
                },
                seed: seed ^ 0xABCD,
            },
        ),
        (name == "cma"@ || name == "cma-es"@ || name == "sep-cma-es"@) ==> optimizer_view(
            name,
            population,
            generations,
            candidates,
            seed,
        ) == Ok::<OptimizerChoice, Seq<char>>(
            OptimizerChoice::Cma {
                population: match population {
                    Some(p) => p,
                    None => 0usize,
                },
                generations: match generations {
                    Some(g) => g,
                    None => 10usize,
                },
                seed: seed ^ 0xC3A,
            },
        ),
        forall|c: usize|
            (name == "random"@ || name == "neighborhood"@) ==> (#[trigger] optimizer_view(
                name,
                population,
                generations,
                Some(c),
                seed,
            ) matches Ok(OptimizerChoice::Random { candidates, .. }) && candidates == c),
{
    reveal_strlit("random");
    reveal_strlit("neighborhood");
    reveal_strlit("cma");
    reveal_strlit("cma-es");
    reveal_strlit("sep-cma-es");
    assert("random"@ != "cma"@ && "random"@ != "cma-es"@ && "random"@ != "sep-cma-es"@) by {
        assert("random"@.len() == 6 && "cma"@.len() == 3 && "sep-cma-es"@.len() == 10);
        assert("random"@[0] != "cma-es"@[0]);
    }
    assert("neighborhood"@ != "cma"@ && "neighborhood"@ != "cma-es"@ && "neighborhood"@ != "sep-cma-es"@)
        by {
        assert("neighborhood"@.len() == 12);
    }
}

/// The optimiser names an agent can be built with.
pub open spec fn known_optimizer(name: Seq<char>) -> bool {
    name == "cma"@ || name == "cma-es"@ || name == "sep-cma-es"@ || name == "random"@ || name
        == "neighborhood"@
}

/// The integer settings of a new agent from its configuration `cfg`: the
/// sizes from the given numbers (read by the caller from `cfg`), the
/// optimiser named by `cfg`'s `optimizer` (`random` when it is absent or not
/// a string). Fails, quoting the name, exactly when that name is unknown.
pub fn agent_settings(
    cfg: &Json,
    seed: Option<u64>,
    dim: Option<usize>,
    n_tasks: Option<usize>,
    n_hardware: Option<usize>,
    n_software: Option<usize>,
    population: Option<usize>,
    generations: Option<usize>,
    candidates: Option<usize>,
) -> (r: Result<(AgentSizes, OptimizerChoice), String>)
    ensures
        ({
            let name = str_param(cfg@, "optimizer"@, "random"@);
            &&& (r is Err <==> !known_optimizer(name))
            &&& (r matches Err(m) ==> m@ == "optimiseur inconnu : '"@ + name + "' (random|cma)"@)
            &&& (r matches Ok((sizes, choice)) ==> {
                &&& sizes.seed == seed.unwrap_or(2026)
                &&& sizes.dim == size_or(dim, 6, 1)
                &&& sizes.n_tasks == size_or(n_tasks, 1024, 16)
                &&& sizes.n_hardware == size_or(n_hardware, 4, 1)
                &&& sizes.n_software == size_or(n_software, 4, 1)
                &&& optimizer_view(name, population, generations, candidates, sizes.seed) == Ok::<
                    OptimizerChoice,
                    Seq<char>,
                >(choice)
            })
        }),
{
    let sizes = agent_sizes(seed, dim, n_tasks, n_hardware, n_software);
    let name = str_param_or(cfg, "optimizer", "random");
    match optimizer_choice(name.as_str(), population, generations, candidates, sizes.seed) {
        Ok(choice) => Ok((sizes, choice)),
        Err(m) => Err(m),
    }
}

/// The position of the session a command names (parameter `id`, else
/// `default`); when there is none, the error that tells to create it first.
/// The store is only read, so a failed lookup leaves every session as it was.
pub fn locate_session<S>(store: &SessionStore<S>, params: &Json) -> (r: Result<usize, String>)
    ensures
        ({
            let id = str_param(params@, "id"@, "default"@);
            &&& (r is Err <==> obj_get(store@, id) is None)
            &&& (r matches Ok(i) ==> i < store@.len() && store@[i as int].0 == id)
            &&& (r matches Err(m) ==> m@ == missing_session_message(id))
        }),
{
    let id = session_id(params);
    match store.find(id.as_str()) {
        Some(i) => Ok(i),
        None => {
            let mut m = String::from_str("session inconnue : '");
            m.append(id.as_str());
            m.append("' (appelez d'abord 'create')");
            Err(m)
        },
    }
}

/// The position of the session to reset; when there is none, the error that
/// names it.
pub fn locate_for_reset<S>(store: &SessionStore<S>, params: &Json) -> (r: Result<usize, String>)
    ensures
        ({
            let id = str_param(params@, "id"@, "default"@);
            &&& (r is Err <==> obj_get(store@, id) is None)
            &&& (r matches Ok(i) ==> i < store@.len() && store@[i as int].0 == id)
            &&& (r matches Err(m) ==> m@ == unknown_session_message(id))
        }),
{
    let id = session_id(params);
    match store.find(id.as_str()) {
        Some(i) => Ok(i),
        None => {
            let mut m = String::from_str("session inconnue : '");
            m.append(id.as_str());
            m.append("'");
            Err(m)
        },
    }
}

/// What an export reads: the session first (an unknown one is the error),
/// then the format (an unknown one is the error).
pub fn plan_export<S>(store: &SessionStore<S>, params: &Json) -> (r: Result<(usize, ExportFormat), String>)
    ensures
        ({
            let id = str_param(params@, "id"@, "default"@);
            let f = str_param(params@, "format"@, "json"@);
            if obj_get(store@, id) is None {
                r matches Err(m) && m@ == missing_session_message(id)
            } else if f == "csv"@ || f == "json"@ {
                r matches Ok((i, x)) && i < store@.len() && store@[i as int].0 == id && x == (if f
                    == "csv"@ {
                    ExportFormat::Csv
                } else {
                    ExportFormat::Json
                })
            } else {
                r matches Err(m) && m@ == "format inconnu : '"@ + f + "' (csv|json)"@
            }
        }),
{
    let i = match locate_session(store, params) {
        Ok(i) => i,
        Err(m) => {
            return Err(m);
        },
    };
    match export_format(params) {
        Ok(f) => Ok((i, f)),
        Err(m) => Err(m),
    }
}

// ----------------------------------------------------------------------- //
// Answers
// ----------------------------------------------------------------------- //

/// The answer to `create` and `reset`: success, the session and its initial
/// snapshot.
pub open spec fn created_view(id: Seq<char>, initial: JVal) -> JVal {
    obj_of(seq![("ok"@, JVal::Bool(true)), ("id"@, jstr(id)), ("initial"@, initial)])
}

/// Builds the answer to `create` and `reset`.
pub fn created_response(id: String, initial: Json) -> (r: Json)
    ensures
        r@ == created_view(id@, initial@),
{
    broadcast use crate::json::lemma_obj_of_push, crate::json::lemma_obj_of_empty;
    let ghost iv = initial@;
    let ghost idv = id@;
    let mut out = Json::obj();
    out.set("ok", Json::Bool(true));
    out.set("id", Json::Str(id));
    out.set("initial", initial);
    assert(seq![("ok"@, JVal::Bool(true)), ("id"@, jstr(idv)), ("initial"@, iv)] =~= Seq::empty().push(
        ("ok"@, JVal::Bool(true)),
    ).push(("id"@, jstr(idv))).push(("initial"@, iv)));
    out
}

/// The name of an export format.
pub open spec fn format_name(f: ExportFormat) -> Seq<char> {
    match f {
        ExportFormat::Csv => "csv"@,
        ExportFormat::Json => "json"@,
    }
}

/// The answer to `export`: success, the format, the number of rows and the
/// exported text.
pub open spec fn export_view(f: ExportFormat, rows: usize, data: Seq<char>) -> JVal {
    obj_of(
        seq![
            ("ok"@, JVal::Bool(true)),
            ("format"@, jstr(format_name(f))),
            ("rows"@, JVal::Num(crate::text::decimal(rows as nat))),
            ("data"@, jstr(data)),
        ],
    )
}

/// Builds the answer to `export`.
pub fn export_response(f: ExportFormat, rows: usize, data: String) -> (r: Json)
    ensures
        r@ == export_view(f, rows, data@),
{
    broadcast use crate::json::lemma_obj_of_push, crate::json::lemma_obj_of_empty;
    let ghost dv = data@;
    let name = match f {
        ExportFormat::Csv => "csv",
        ExportFormat::Json => "json",
    };
    let mut out = Json::obj();
    out.set("ok", Json::Bool(true));
    out.set("format", Json::Str(String::from_str(name)));
    out.set("rows", Json::from_usize(rows));
    out.set("data", Json::Str(data));
    assert(seq![
        ("ok"@, JVal::Bool(true)),
        ("format"@, jstr(format_name(f))),
        ("rows"@, JVal::Num(crate::text::decimal(rows as nat))),
        ("data"@, jstr(dv)),
    ] =~= Seq::empty().push(("ok"@, JVal::Bool(true))).push(("format"@, jstr(format_name(f)))).push(
        ("rows"@, JVal::Num(crate::text::decimal(rows as nat))),
    ).push(("data"@, jstr(dv))));
    out
}

/// The line of `list_sessions` for one session: its name, its step count,
/// its level and the length of its history.
pub open spec fn session_entry_view(id: Seq<char>, t: usize, si_global: JVal, history_len: usize) -> JVal {
    obj_of(
        seq![
            ("id"@, jstr(id)),
            ("t"@, JVal::Num(crate::text::decimal(t as nat))),
            ("si_global"@, si_global),
            ("history_len"@, JVal::Num(crate::text::decimal(history_len as nat))),
        ],
    )
}

/// Builds the line of `list_sessions` for one session.
pub fn session_entry(id: &str, t: usize, si_global: Json, history_len: usize) -> (r: Json)
    ensures
        r@ == session_entry_view(id@, t, si_global@, history_len),
{
    broadcast use crate::json::lemma_obj_of_push, crate::json::lemma_obj_of_empty;
    let ghost sv = si_global@;
    let mut o = Json::obj();
    o.set("id", Json::Str(String::from_str(id)));
    o.set("t", Json::from_usize(t));
    o.set("si_global", si_global);
    o.set("history_len", Json::from_usize(history_len));
    assert(seq![
        ("id"@, jstr(id@)),
        ("t"@, JVal::Num(crate::text::decimal(t as nat))),
        ("si_global"@, sv),
        ("history_len"@, JVal::Num(crate::text::decimal(history_len as nat))),
    ] =~= Seq::empty().push(("id"@, jstr(id@))).push(("t"@, JVal::Num(crate::text::decimal(t as nat)))).push(
        ("si_global"@, sv),
    ).push(("history_len"@, JVal::Num(crate::text::decimal(history_len as nat)))));
    o
}

/// Builds the answer to `list_sessions` from the lines of the sessions.
pub fn sessions_response(lines: Vec<Json>) -> (r: Json)
    ensures
        r@ == obj_of(seq![("sessions"@, JVal::Arr(crate::json::items_view(lines@)))]),
{
    broadcast use crate::json::lemma_obj_of_push, crate::json::lemma_obj_of_empty;
    let ghost lv = crate::json::items_view(lines@);
    let mut out = Json::obj();
    out.set("sessions", Json::Arr(lines));
    assert(seq![("sessions"@, JVal::Arr(lv))] =~= Seq::empty().push(("sessions"@, JVal::Arr(lv))));
    out
}

/// The answer to `run`: success, the session, the steps asked, the level
/// before, the total step count, and, when a step was taken, the level after,
/// the gain and the last step's report.
pub open spec fn run_view(
    id: Seq<char>,
    steps: usize,
    si_start: JVal,
    total_steps: usize,
    last: Option<(JVal, JVal, JVal)>,
) -> JVal {
    let base = obj_of(
        seq![
            ("ok"@, JVal::Bool(true)),
            ("id"@, jstr(id)),
            ("steps"@, JVal::Num(crate::text::decimal(steps as nat))),
            ("si_start"@, si_start),
            ("total_steps"@, JVal::Num(crate::text::decimal(total_steps as nat))),
        ],
    );
    match last {
        Some((si_end, gain, report)) => crate::json::set_view(
            crate::json::set_view(crate::json::set_view(base, "si_end"@, si_end), "gain"@, gain),
            "last"@,
            report,
        ),
        None => base,
    }
}

/// Builds the answer to `run`; `last` holds the level after, the gain and
/// the report of the last step, when there is one.
pub fn run_response(
    id: String,
    steps: usize,
    si_start: Json,
    total_steps: usize,
    last: Option<(Json, Json, Json)>,
) -> (r: Json)
    ensures
        r@ == run_view(
            id@,
            steps,
            si_start@,
            total_steps,
            match last {
                Some((a, b, c)) => Some((a@, b@, c@)),
                None => None::<(JVal, JVal, JVal)>,
            },
        ),
{
    broadcast use crate::json::lemma_obj_of_push, crate::json::lemma_obj_of_empty;
    let ghost idv = id@;
    let ghost sv = si_start@;
    let mut out = Json::obj();
    out.set("ok", Json::Bool(true));
    out.set("id", Json::Str(id));
    out.set("steps", Json::from_usize(steps));
    out.set("si_start", si_start);
    out.set("total_steps", Json::from_usize(total_steps));
    assert(seq![
        ("ok"@, JVal::Bool(true)),
        ("id"@, jstr(idv)),
        ("steps"@, JVal::Num(crate::text::decimal(steps as nat))),
        ("si_start"@, sv),
        ("total_steps"@, JVal::Num(crate::text::decimal(total_steps as nat))),
    ] =~= Seq::empty().push(("ok"@, JVal::Bool(true))).push(("id"@, jstr(idv))).push(
        ("steps"@, JVal::Num(crate::text::decimal(steps as nat))),
    ).push(("si_start"@, sv)).push(("total_steps"@, JVal::Num(crate::text::decimal(total_steps as nat)))));
    if let Some((si_end, gain, report)) = last {
        out.set("si_end", si_end);
        out.set("gain", gain);
        out.set("last", report);
    }
    out
}

/// Name of the system, as `describe` gives it.
pub const SYSTEM_NAME: &'static str = "RSI — Recursive Self-Improvement";

/// Summary of the model, as `describe` gives it.
pub const SYSTEM_SUMMARY: &'static str = "Modèle dynamique d'un agent cognitif dont la surface de compétence Σ_I se déforme sous l'effet de l'apprentissage, du substrat matériel/logiciel et d'une méta-optimisation récursive, sous garde-fous de stabilité (‖ΔS‖<λ et non-régression de SI_global).";

/// The commands and what they do, in the order `describe` lists them.
pub open spec fn command_catalogue() -> Seq<(Seq<char>, Seq<char>)> {
    seq![
        ("describe"@, "Décrit le système et les commandes."@),
        ("create"@, "Crée une session. Params: id, seed, optimizer(random|cma), dim, n_tasks, n_hardware, n_software, lambda, epsilon, eta0, forgetting, phi_slope, phi_bias, (+ candidates/explore_scale ou population/generations/sigma0)."@),
        ("step"@, "Un pas de boucle RSI. Params: id."@),
        ("run"@, "Avance de N pas. Params: id, steps."@),
        ("state"@, "Instantané: si_global, p_eff, capacités, goulot. Params: id."@),
        ("export"@, "Exporte la trajectoire. Params: id, format(csv|json)."@),
        ("reset"@, "Réinitialise la session. Params: id."@),
        ("list_sessions"@, "Liste les sessions actives."@),
    ]
}

/// The entry of one command in the description.
pub open spec fn command_entry_view(c: (Seq<char>, Seq<char>)) -> JVal {
    obj_of(seq![("name"@, jstr(c.0)), ("description"@, jstr(c.1))])
}

/// The self-description of the system: name, `version`, summary, and the
/// catalogue of commands.
pub open spec fn describe_view(version: Seq<char>) -> JVal {
    obj_of(
        seq![
            ("name"@, jstr(SYSTEM_NAME@)),
            ("version"@, jstr(version)),
            ("summary"@, jstr(SYSTEM_SUMMARY@)),
            ("commands"@, JVal::Arr(command_catalogue().map_values(|c: (Seq<char>, Seq<char>)| command_entry_view(c)))),
        ],
    )
}

/// Describes the system and its commands, for a system of the given version.
pub fn describe(version: &str) -> (r: Json)
    ensures
        r@ == describe_view(version@),
{
    broadcast use crate::json::lemma_obj_of_push, crate::json::lemma_obj_of_empty;
    let mut out = Json::obj();
    out.set("name", Json::Str(String::from_str(SYSTEM_NAME)));
    out.set("version", Json::Str(String::from_str(version)));
    out.set("summary", Json::Str(String::from_str(SYSTEM_SUMMARY)));
    let commands: [(&str, &str); 8] = [
        ("describe", "Décrit le système et les commandes."),
        ("create", "Crée une session. Params: id, seed, optimizer(random|cma), dim, n_tasks, n_hardware, n_software, lambda, epsilon, eta0, forgetting, phi_slope, phi_bias, (+ candidates/explore_scale ou population/generations/sigma0)."),
        ("step", "Un pas de boucle RSI. Params: id."),
        ("run", "Avance de N pas. Params: id, steps."),
        ("state", "Instantané: si_global, p_eff, capacités, goulot. Params: id."),
        ("export", "Exporte la trajectoire. Params: id, format(csv|json)."),
        ("reset", "Réinitialise la session. Params: id."),
        ("list_sessions", "Liste les sessions actives."),
    ];
    let ghost cat = command_catalogue();
    assert(commands@.map_values(|c: (&str, &str)| (c.0@, c.1@)) =~= cat);
    let mut arr: Vec<Json> = Vec::new();
    let mut i: usize = 0;
    while i < 8
        invariant
            i <= 8,
            commands@.len() == 8,
            cat == commands@.map_values(|c: (&str, &str)| (c.0@, c.1@)),
            crate::json::items_view(arr@) == cat.take(i as int).map_values(
                |c: (Seq<char>, Seq<char>)| command_entry_view(c),
            ),
        decreases 8 - i,
    {
        let (name, desc) = commands[i];
        let mut o = Json::obj();
        o.set("name", Json::Str(String::from_str(name)));
        o.set("description", Json::Str(String::from_str(desc)));
        assert(seq![("name"@, jstr(name@)), ("description"@, jstr(desc@))] =~= Seq::empty().push(
            ("name"@, jstr(name@)),
        ).push(("description"@, jstr(desc@))));
        assert(cat[i as int] == (name@, desc@));
        proof {
            crate::json::lemma_obj_of_push(Seq::empty(), ("name"@, jstr(name@)));
            crate::json::lemma_obj_of_push(Seq::empty().push(("name"@, jstr(name@))), ("description"@, jstr(desc@)));
        }
        assert(o@ == command_entry_view(cat[i as int]));
        proof {
            crate::json::lemma_items_view_push(arr@, o);
        }
        arr.push(o);
        assert(cat.take(i + 1).map_values(|c: (Seq<char>, Seq<char>)| command_entry_view(c)) =~= cat.take(
            i as int,
        ).map_values(|c: (Seq<char>, Seq<char>)| command_entry_view(c)).push(command_entry_view(cat[i as int])));
        i = i + 1;
    }
    assert(cat.take(8) =~= cat);
    let ghost av = crate::json::items_view(arr@);
    out.set("commands", Json::Arr(arr));
    assert(seq![
        ("name"@, jstr(SYSTEM_NAME@)),
        ("version"@, jstr(version@)),
        ("summary"@, jstr(SYSTEM_SUMMARY@)),
        ("commands"@, JVal::Arr(av)),
    ] =~= Seq::empty().push(("name"@, jstr(SYSTEM_NAME@))).push(("version"@, jstr(version@))).push(
        ("summary"@, jstr(SYSTEM_SUMMARY@)),
    ).push(("commands"@, JVal::Arr(av))));
    out
}

/// Storing a session makes it the one found under its name, and leaves what
/// is found under every other name as it was.
pub proof fn law_store_then_find<S>(sessions: Seq<(Seq<char>, S)>, id: Seq<char>, s: S, other: Seq<char>)
    requires
        keys_sorted(sessions),
    ensures
        obj_get(obj_insert(sessions, id, s), id) == Some(s),
        other != id ==> obj_get(obj_insert(sessions, id, s), other) == obj_get(sessions, other),
        keys_sorted(obj_insert(sessions, id, s)),
{
    crate::json_laws::lemma_obj_insert_get(sessions, id, s, other);
    crate::json_laws::lemma_obj_insert_sorted_keys(sessions, id, s);
}

} // verus!
