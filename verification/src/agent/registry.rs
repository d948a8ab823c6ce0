//! The agent registry: looking agents up, registering them and assigning
//! them to dimensions, on the registry contents loaded from disk.
use vstd::prelude::*;
use crate::agent::error::AgentError;
use crate::agent::identity::{
    is_invalid_name_error, name_problem, AgentIdentity, AgentIdentityView, AgentType,
};
use crate::agent::identity::agent_type_named;
use crate::text::{chars_of, join2, path_join, path_joined, str_eq, string_of, take_chars};

verus! {

/// The registry file's contents.
#[derive(Debug, Clone)]
pub struct RegistryStore {
    pub version: u32,
    pub agents: Vec<AgentIdentity>,
}

impl RegistryStore {
    /// The registered agents, in order.
    pub open spec fn agent_views(&self) -> Seq<AgentIdentityView> {
        self.agents@.map_values(|a: AgentIdentity| a@)
    }
}

/// Whether `key` is the agent's name or its id.
pub open spec fn answers_to(a: AgentIdentityView, key: Seq<char>) -> bool {
    a.name == key || a.id == key
}

/// The position of the first agent from `start` on that answers to `key`, or -1.
pub open spec fn find_from(agents: Seq<AgentIdentityView>, key: Seq<char>, start: int) -> int
    decreases agents.len() - start,
{
    if start < 0 || start >= agents.len() {
        -1
    } else if answers_to(agents[start], key) {
        start
    } else {
        find_from(agents, key, start + 1)
    }
}

/// The first agent that answers to `key`.
pub open spec fn lookup(agents: Seq<AgentIdentityView>, key: Seq<char>) -> Option<
    AgentIdentityView,
> {
    let i = find_from(agents, key, 0);
    if i >= 0 {
        Some(agents[i])
    } else {
        None
    }
}

/// An agent moved to another dimension.
pub open spec fn with_dimension(a: AgentIdentityView, dimension: Seq<char>) -> AgentIdentityView {
    AgentIdentityView { assigned_dimension: Some(dimension), ..a }
}

/// The registry after the first agent that answers to `key` moved to `dimension`.
pub open spec fn assigned(agents: Seq<AgentIdentityView>, key: Seq<char>, dimension: Seq<char>) -> Seq<
    AgentIdentityView,
> {
    let i = find_from(agents, key, 0);
    if i >= 0 {
        agents.update(i, with_dimension(agents[i], dimension))
    } else {
        agents
    }
}

/// The record of a newly registered agent.
pub open spec fn new_identity(
    name: Seq<char>,
    agent_type: AgentType,
    capabilities: Seq<Seq<char>>,
    now: u64,
) -> AgentIdentityView {
    AgentIdentityView {
        id: "agent-"@ + name,
        name: name,
        agent_type: agent_type,
        registered_at: now,
        assigned_dimension: Some("mainline"@),
        capabilities: capabilities,
        metadata: None,
    }
}

/// Whether some agent already has this name.
pub open spec fn name_taken(agents: Seq<AgentIdentityView>, name: Seq<char>) -> bool {
    exists|i: int| 0 <= i < agents.len() && (#[trigger] agents[i]).name == name
}

proof fn lemma_find_from_bounds(agents: Seq<AgentIdentityView>, key: Seq<char>, start: int)
    requires
        0 <= start,
    ensures
        find_from(agents, key, start) == -1 || (start <= find_from(agents, key, start) < agents.len()
            && answers_to(agents[find_from(agents, key, start)], key)),
        find_from(agents, key, start) == -1 ==> forall|j: int|
            start <= j < agents.len() ==> !answers_to(#[trigger] agents[j], key),
        find_from(agents, key, start) >= 0 ==> forall|j: int|
            start <= j < find_from(agents, key, start) ==> !answers_to(#[trigger] agents[j], key),
    decreases agents.len() - start,
{
    if start < agents.len() && !answers_to(agents[start], key) {
        lemma_find_from_bounds(agents, key, start + 1);
    }
}

proof fn lemma_find_from_is_first(agents: Seq<AgentIdentityView>, key: Seq<char>, i: int)
    requires
        0 <= i < agents.len(),
        answers_to(agents[i], key),
        forall|j: int| 0 <= j < i ==> !answers_to(#[trigger] agents[j], key),
    ensures
        find_from(agents, key, 0) == i,
{
    lemma_find_from_bounds(agents, key, 0);
    let f = find_from(agents, key, 0);
    if f == -1 {
        assert(!answers_to(agents[i], key));
    } else if f < i {
        assert(!answers_to(agents[f], key));
    } else if f > i {
        assert(!answers_to(agents[i], key));
    }
}

/// Where the registry of one repository lives.
pub struct AgentRegistry {
    agents_dir: String,
    dft_dir: String,
}

impl AgentRegistry {
    pub closed spec fn spec_agents_dir(&self) -> Seq<char> {
        self.agents_dir@
    }

    pub closed spec fn spec_dft_dir(&self) -> Seq<char> {
        self.dft_dir@
    }

    pub fn new(dft_dir: &str) -> (r: Self)
        ensures
            r.spec_agents_dir() == path_joined(dft_dir@, "agents"@),
            r.spec_dft_dir() == dft_dir@,
    {
        AgentRegistry { agents_dir: path_join(dft_dir, "agents"), dft_dir: String::from_str(dft_dir) }
    }

    /// The registry file.
    pub fn registry_path(&self) -> (r: String)
        ensures
            r@ == path_joined(self.spec_agents_dir(), "registry.json"@),
    {
        path_join(self.agents_dir.as_str(), "registry.json")
    }

    /// The per-agent record file kept for older readers.
    pub fn legacy_agent_path(&self, name: &str) -> (r: String)
        ensures
            r@ == path_joined(self.spec_agents_dir(), name@ + ".json"@),
    {
        let file = join2(name, ".json");
        path_join(self.agents_dir.as_str(), file.as_str())
    }

    /// The directory that a dimension other than mainline must have.
    pub fn dimension_dir(&self, dimension: &str) -> (r: String)
        ensures
            r@ == path_joined(path_joined(self.spec_dft_dir(), "dimensions"@), dimension@),
    {
        let dims = path_join(self.dft_dir.as_str(), "dimensions");
        path_join(dims.as_str(), dimension)
    }

    /// Accepts `mainline` always and any other dimension whose directory exists.
    pub fn validate_dimension_exists(&self, dimension: &str, dir_exists: bool) -> (r: Result<
        (),
        AgentError,
    >)
        ensures
            (dimension@ == "mainline"@ || dir_exists) ==> r is Ok,
            !(dimension@ == "mainline"@ || dir_exists) ==> (r matches Err(
                AgentError::DimensionNotFound(d),
            ) && d@ == dimension@),
    {
        if str_eq(dimension, "mainline") {
            return Ok(());
        }
        if !dir_exists {
            return Err(AgentError::DimensionNotFound(String::from_str(dimension)));
        }
        Ok(())
    }

    /// Every registered agent, in registry order.
    pub fn list(&self, store: RegistryStore) -> (r: Vec<AgentIdentity>)
        ensures
            r@ == store.agents@,
    {
        store.agents
    }

    /// Finds the position of the first agent that answers to `key`.
    fn position(store: &RegistryStore, key: &str) -> (r: Option<usize>)
        ensures
            match r {
                Some(i) => i == find_from(store.agent_views(), key@, 0) && i < store.agents.len(),
                None => find_from(store.agent_views(), key@, 0) == -1,
            },
    {
        let ghost views = store.agent_views();
        let mut i: usize = 0;
        while i < store.agents.len()
            invariant
                i <= store.agents.len(),
                views == store.agent_views(),
                forall|j: int| 0 <= j < i ==> !answers_to(#[trigger] views[j], key@),
            decreases store.agents.len() - i,
        {
            let a = &store.agents[i];
            if str_eq(a.name.as_str(), key) || str_eq(a.id.as_str(), key) {
                proof {
                    assert(views[i as int] == a@);
                    lemma_find_from_is_first(views, key@, i as int);
                }
                return Some(i);
            }
            assert(!answers_to(views[i as int], key@));
            i = i + 1;
        }
        proof {
            lemma_find_from_bounds(views, key@, 0);
            if find_from(views, key@, 0) != -1 {
                let f = find_from(views, key@, 0);
                assert(!answers_to(views[f], key@));
            }
        }
        None
    }

    /// Whether some registered agent has this name.
    fn has_name(store: &RegistryStore, name: &str) -> (r: bool)
        ensures
            r == name_taken(store.agent_views(), name@),
    {
        let ghost views = store.agent_views();
        let mut i: usize = 0;
        while i < store.agents.len()
            invariant
                i <= store.agents.len(),
                views == store.agent_views(),
                forall|j: int| 0 <= j < i ==> (#[trigger] views[j]).name != name@,
            decreases store.agents.len() - i,
        {
            if str_eq(store.agents[i].name.as_str(), name) {
                proof {
                    assert(views[i as int].name == name@);
                }
                return true;
            }
            i = i + 1;
        }
        false
    }

    /// The first agent whose name or id is `name_or_id`.
    pub fn get(&self, store: &RegistryStore, name_or_id: &str) -> (r: Result<
        AgentIdentity,
        AgentError,
    >)
        ensures
            match lookup(store.agent_views(), name_or_id@) {
                Some(v) => r matches Ok(a) && a@ == v,
                None => r matches Err(AgentError::AgentNotFound(k)) && k@ == name_or_id@,
            },
    {
        match Self::position(store, name_or_id) {
            Some(i) => Ok(store.agents[i].duplicate()),
            None => Err(AgentError::AgentNotFound(String::from_str(name_or_id))),
        }
    }

    /// Moves the first agent that answers to `agent_name` to `dimension`, which
    /// must be mainline or have a directory; leaves the registry unchanged on
    /// error.
    pub fn assign(
        &self,
        store: &mut RegistryStore,
        agent_name: &str,
        dimension: &str,
        dimension_dir_exists: bool,
    ) -> (r: Result<AgentIdentity, AgentError>)
        ensures
            final(store).version == old(store).version,
            !(dimension@ == "mainline"@ || dimension_dir_exists) ==> {
                &&& r matches Err(AgentError::DimensionNotFound(d)) && d@ == dimension@
                &&& final(store).agent_views() == old(store).agent_views()
            },
            (dimension@ == "mainline"@ || dimension_dir_exists) ==> match lookup(
                old(store).agent_views(),
                agent_name@,
            ) {
                Some(v) => {
                    &&& r matches Ok(a) && a@ == with_dimension(v, dimension@)
                    &&& final(store).agent_views() == assigned(
                        old(store).agent_views(),
                        agent_name@,
                        dimension@,
                    )
                },
                None => {
                    &&& r matches Err(AgentError::AgentNotFound(k)) && k@ == agent_name@
                    &&& final(store).agent_views() == old(store).agent_views()
                },
            },
    {
        match self.validate_dimension_exists(dimension, dimension_dir_exists) {
            Err(e) => {
                return Err(e);
            },
            Ok(()) => {},
        }
        match Self::position(store, agent_name) {
            None => Err(AgentError::AgentNotFound(String::from_str(agent_name))),
            Some(i) => {
                let mut updated = store.agents[i].duplicate();
                updated.assigned_dimension = Some(String::from_str(dimension));
                let result = updated.duplicate();
                let ghost before = store.agent_views();
                store.agents.set(i, updated);
                proof {
                    assert(store.agent_views() =~= assigned(before, agent_name@, dimension@));
                }
                Ok(result)
            },
        }
    }

    /// Adds a new agent named `name`, of the given type and capabilities,
    /// registered at `now` and assigned to mainline. Fails on an invalid name,
    /// or when the name is taken in the registry or by a record file of its
    /// own (`legacy_record_exists`); the registry is unchanged then.
    pub fn register(
        &self,
        store: &mut RegistryStore,
        name: &str,
        agent_type: AgentType,
        capabilities: Vec<String>,
        legacy_record_exists: bool,
        now: u64,
    ) -> (r: Result<AgentIdentity, AgentError>)
        ensures
            final(store).version == old(store).version,
            match name_problem(name@) {
                Some(why) => {
                    &&& r matches Err(e) && is_invalid_name_error(e, name@, why)
                    &&& final(store).agent_views() == old(store).agent_views()
                },
                None => if name_taken(old(store).agent_views(), name@) || legacy_record_exists {
                    &&& r matches Err(AgentError::AgentAlreadyExists(n)) && n@ == name@
                    &&& final(store).agent_views() == old(store).agent_views()
                } else {
                    let v = new_identity(
                        name@,
                        agent_type,
                        capabilities@.map_values(|c: String| c@),
                        now,
                    );
                    &&& r matches Ok(a) && a@ == v
                    &&& final(store).agent_views() == old(store).agent_views().push(v)
                },
            },
    {
        match AgentIdentity::validate_name(name) {
            Err(e) => {
                return Err(e);
            },
            Ok(()) => {},
        }
        let ghost views = store.agent_views();
        let taken = Self::has_name(store, name);
        if taken || legacy_record_exists {
            return Err(AgentError::AgentAlreadyExists(String::from_str(name)));
        }
        proof {
            assert(!name_taken(views, name@));
        }
        let identity = AgentIdentity {
            id: join2("agent-", name),
            name: String::from_str(name),
            agent_type,
            registered_at: now,
            assigned_dimension: Some(String::from_str("mainline")),
            capabilities,
            metadata: None,
        };
        let result = identity.duplicate();
        store.agents.push(identity);
        proof {
            assert(store.agent_views() =~= views.push(result@));
        }
        Ok(result)
    }
}

// ---------------------------------------------------------------------------
// Loading and saving
// ---------------------------------------------------------------------------

/// A per-agent record file as older versions wrote it.
#[derive(Debug, Clone)]
pub struct LegacyAgentRecord {
    pub name: String,
    pub agent_type: String,
    pub dimension: String,
    pub last_heartbeat: String,
}

/// A file found in the agents directory, with its record if it could be
/// read as one.
pub struct LegacyAgentFile {
    pub file_name: String,
    pub record: Option<LegacyAgentRecord>,
}

/// What the registry file held when it was read.
pub enum RegistryFile {
    /// There is no registry file.
    Absent,
    /// The file is there but is not a registry.
    Malformed,
    /// The registry read from the file.
    Loaded(RegistryStore),
}

/// Whether a file name has the extension `json` (a name that is only
/// `.json` has none).
pub open spec fn is_json_name(n: Seq<char>) -> bool {
    n.len() > 5 && ".json"@.is_suffix_of(n)
}

/// The name with every trailing `.json` removed.
pub open spec fn without_json(n: Seq<char>) -> Seq<char>
    decreases n.len(),
{
    if n.len() >= 5 && ".json"@.is_suffix_of(n) {
        without_json(n.take(n.len() - 5))
    } else {
        n
    }
}

/// The agent a legacy record describes, registered at `now`.
pub open spec fn legacy_identity(rec: LegacyAgentRecord, now: u64) -> AgentIdentityView {
    AgentIdentityView {
        id: "agent-"@ + rec.name@,
        name: rec.name@,
        agent_type: match agent_type_named(rec.agent_type@) {
            Ok(t) => t,
            Err(_) => AgentType::Ai,
        },
        registered_at: now,
        assigned_dimension: Some(rec.dimension@),
        capabilities: Seq::empty(),
        metadata: None,
    }
}

/// The agents with those of the legacy files added: each `.json` file
/// other than the registry and the legacy inbox, in order, whose name
/// (without `.json`) no agent so far has, and that holds a record.
pub open spec fn merge_legacy(agents: Seq<AgentIdentityView>, files: Seq<LegacyAgentFile>, now: u64) -> Seq<AgentIdentityView>
    decreases files.len(),
{
    if files.len() == 0 {
        agents
    } else {
        let prev = merge_legacy(agents, files.drop_last(), now);
        let f = files.last();
        let n = f.file_name@;
        if is_json_name(n) && n != "registry.json"@ && n != "global_inbox.json"@ && !name_taken(prev, without_json(n)) {
            match f.record {
                Some(rec) => prev.push(legacy_identity(rec, now)),
                None => prev,
            }
        } else {
            prev
        }
    }
}

fn ends_with_json(v: &Vec<char>, n: usize) -> (r: bool)
    requires
        n <= v@.len(),
    ensures
        r == (n >= 5 && ".json"@.is_suffix_of(v@.take(n as int))),
{
    proof {
        reveal_strlit(".json");
    }
    if n < 5 {
        return false;
    }
    let r = v[n - 5] == '.' && v[n - 4] == 'j' && v[n - 3] == 's' && v[n - 2] == 'o' && v[n - 1] == 'n';
    proof {
        let t = v@.take(n as int);
        if r {
            assert(".json"@ =~= t.subrange(n - 5, n as int));
        } else {
            if ".json"@.is_suffix_of(t) {
                assert(".json"@ =~= t.subrange(n - 5, n as int));
                assert(".json"@[0] == t[n - 5]);
                assert(".json"@[1] == t[n - 4]);
                assert(".json"@[2] == t[n - 3]);
                assert(".json"@[3] == t[n - 2]);
                assert(".json"@[4] == t[n - 1]);
            }
        }
    }
    r
}

/// The name with every trailing `.json` removed (`str::trim_end_matches`).
fn strip_json(name: &str) -> (r: String)
    ensures
        r@ == without_json(name@),
{
    let v = chars_of(name);
    let mut n: usize = v.len();
    proof {
        assert(v@.take(n as int) =~= name@);
    }
    while ends_with_json(&v, n)
        invariant
            n <= v@.len(),
            v@ == name@,
            without_json(name@) == without_json(v@.take(n as int)),
        decreases n,
    {
        proof {
            assert(v@.take(n as int).take(n - 5) =~= v@.take(n - 5));
        }
        n = n - 5;
    }
    string_of(&take_chars(&v, n))
}

impl AgentRegistry {
    /// The registry as loaded: the stored one (a fresh one at version 1
    /// when there is no file, an empty one at version 0 when the file is not
    /// a registry), with the agents of the legacy record files added, each
    /// registered at `now`.
    pub fn load_registry(&self, file: RegistryFile, legacy: &Vec<LegacyAgentFile>, now: u64) -> (r: RegistryStore)
        ensures
            r.version == match file {
                RegistryFile::Absent => 1u32,
                RegistryFile::Malformed => 0u32,
                RegistryFile::Loaded(s) => s.version,
            },
            r.agent_views() == merge_legacy(
                match file {
                    RegistryFile::Loaded(s) => s.agent_views(),
                    _ => Seq::empty(),
                },
                legacy@,
                now,
            ),
    {
        let mut store = match file {
            RegistryFile::Absent => RegistryStore { version: 1, agents: Vec::new() },
            RegistryFile::Malformed => RegistryStore { version: 0, agents: Vec::new() },
            RegistryFile::Loaded(s) => s,
        };
        let ghost base = store.agent_views();
        let mut i: usize = 0;
        proof {
            assert(base =~= match file {
                RegistryFile::Loaded(s) => s.agent_views(),
                _ => Seq::empty(),
            });
            assert(legacy@.take(0) =~= Seq::<LegacyAgentFile>::empty());
        }
        while i < legacy.len()
            invariant
                i <= legacy.len(),
                store.agent_views() == merge_legacy(base, legacy@.take(i as int), now),
                store.version == old_version(file),
            decreases legacy.len() - i,
        {
            let f = &legacy[i];
            proof {
                assert(legacy@.take(i + 1).drop_last() =~= legacy@.take(i as int));
                assert(legacy@.take(i + 1).last() == *f);
                reveal_strlit(".json");
            }
            let v = chars_of(f.file_name.as_str());
            let json = v.len() > 5 && ends_with_json(&v, v.len());
            proof {
                assert(v@.take(v@.len() as int) =~= v@);
            }
            if json && !str_eq(f.file_name.as_str(), "registry.json") && !str_eq(f.file_name.as_str(), "global_inbox.json") {
                let agent_name = strip_json(f.file_name.as_str());
                if !Self::has_name(&store, agent_name.as_str()) {
                    match &f.record {
                        Some(rec) => {
                            let agent_type = match AgentType::parse(rec.agent_type.as_str()) {
                                Ok(t) => t,
                                Err(_) => AgentType::Ai,
                            };
                            let ghost before = store.agent_views();
                            let a = AgentIdentity {
                                id: join2("agent-", rec.name.as_str()),
                                name: rec.name.clone(),
                                agent_type,
                                registered_at: now,
                                assigned_dimension: Some(rec.dimension.clone()),
                                capabilities: Vec::new(),
                                metadata: None,
                            };
                            store.agents.push(a);
                            proof {
                                assert(a@.capabilities =~= Seq::<Seq<char>>::empty());
                                assert(a@ == legacy_identity(*rec, now));
                                assert(store.agent_views() =~= before.push(a@));
                            }
                        },
                        None => {},
                    }
                }
            }
            i = i + 1;
        }
        proof {
            assert(legacy@.take(legacy.len() as int) =~= legacy@);
        }
        store
    }

    /// The record file written for an agent beside the registry: its name,
    /// its type as `human` or `ai`, its dimension (mainline when it has
    /// none) and the time of writing.
    pub fn legacy_record(a: &AgentIdentity, now_rfc3339: &str) -> (r: LegacyAgentRecord)
        ensures
            r.name@ == a.name@,
            r.agent_type@ == match a.agent_type {
                AgentType::Human => "human"@,
                AgentType::Ai => "ai"@,
            },
            r.dimension@ == match a.assigned_dimension {
                Some(d) => d@,
                None => "mainline"@,
            },
            r.last_heartbeat@ == now_rfc3339@,
    {
        LegacyAgentRecord {
            name: a.name.clone(),
            agent_type: match a.agent_type {
                AgentType::Human => String::from_str("human"),
                AgentType::Ai => String::from_str("ai"),
            },
            dimension: match &a.assigned_dimension {
                Some(d) => d.clone(),
                None => String::from_str("mainline"),
            },
            last_heartbeat: String::from_str(now_rfc3339),
        }
    }
}

/// The version a registry file gives.
pub open spec fn old_version(file: RegistryFile) -> u32 {
    match file {
        RegistryFile::Absent => 1u32,
        RegistryFile::Malformed => 0u32,
        RegistryFile::Loaded(s) => s.version,
    }
}

} // verus!

verus! {

proof fn lemma_find_from_same_keys(
    a: Seq<AgentIdentityView>,
    b: Seq<AgentIdentityView>,
    key: Seq<char>,
    start: int,
)
    requires
        a.len() == b.len(),
        forall|j: int| 0 <= j < a.len() ==> a[j].name == b[j].name && a[j].id == b[j].id,
    ensures
        find_from(a, key, start) == find_from(b, key, start),
    decreases a.len() - start,
{
    if 0 <= start < a.len() {
        lemma_find_from_same_keys(a, b, key, start + 1);
    }
}

proof fn lemma_find_from_push(
    a: Seq<AgentIdentityView>,
    x: AgentIdentityView,
    key: Seq<char>,
    start: int,
)
    requires
        0 <= start,
    ensures
        find_from(a, key, start) >= 0 ==> find_from(a.push(x), key, start) == find_from(
            a,
            key,
            start,
        ),
        find_from(a, key, start) == -1 && start <= a.len() && answers_to(x, key) ==> find_from(
            a.push(x),
            key,
            start,
        ) == a.len(),
    decreases a.len() - start,
{
    if start < a.len() {
        assert(a.push(x)[start] == a[start]);
        lemma_find_from_push(a, x, key, start + 1);
    } else if start == a.len() {
        assert(a.push(x)[start] == x);
    }
}

/// After an agent is assigned to a dimension, looking it up by the same name
/// or id gives it back with that dimension.
pub proof fn lemma_assign_then_get(
    agents: Seq<AgentIdentityView>,
    key: Seq<char>,
    dimension: Seq<char>,
)
    requires
        lookup(agents, key) is Some,
    ensures
        lookup(assigned(agents, key, dimension), key) == Some(
            with_dimension(lookup(agents, key)->0, dimension),
        ),
{
    lemma_find_from_bounds(agents, key, 0);
    let after = assigned(agents, key, dimension);
    lemma_find_from_same_keys(agents, after, key, 0);
}

/// Assigning one agent does not change which agent any key finds.
pub proof fn lemma_assign_keeps_lookups(
    agents: Seq<AgentIdentityView>,
    key: Seq<char>,
    dimension: Seq<char>,
    other: Seq<char>,
)
    ensures
        find_from(assigned(agents, key, dimension), other, 0) == find_from(agents, other, 0),
        assigned(agents, key, dimension).len() == agents.len(),
{
    lemma_find_from_bounds(agents, key, 0);
    let after = assigned(agents, key, dimension);
    lemma_find_from_same_keys(agents, after, other, 0);
}

/// A newly registered agent is found by its name, unless an earlier agent
/// already answers to that text (as an id).
pub proof fn lemma_register_then_get(
    agents: Seq<AgentIdentityView>,
    name: Seq<char>,
    agent_type: AgentType,
    capabilities: Seq<Seq<char>>,
    now: u64,
)
    requires
        lookup(agents, name) is None,
    ensures
        lookup(agents.push(new_identity(name, agent_type, capabilities, now)), name) == Some(
            new_identity(name, agent_type, capabilities, now),
        ),
{
    let x = new_identity(name, agent_type, capabilities, now);
    lemma_find_from_bounds(agents, name, 0);
    lemma_find_from_push(agents, x, name, 0);
}

/// Registering an agent does not change what earlier lookups find.
pub proof fn lemma_register_keeps_lookups(
    agents: Seq<AgentIdentityView>,
    x: AgentIdentityView,
    key: Seq<char>,
)
    requires
        lookup(agents, key) is Some,
    ensures
        lookup(agents.push(x), key) == lookup(agents, key),
{
    lemma_find_from_bounds(agents, key, 0);
    lemma_find_from_push(agents, x, key, 0);
}

} // verus!
