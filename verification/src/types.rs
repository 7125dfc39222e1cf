//! Data model: execution modes, task status, handles, task records and the
//! ephemeral reports computed during reconciliation.

use vstd::prelude::*;

verus! {

/// How a supervised task is executed: as a native OS process or inside a
/// container managed by an external engine.
#[derive(Clone, Copy, PartialEq, Eq, Structural, Debug)]
pub enum ExecutionMode {
    Native,
    Docker,
}

/// Lifecycle state of a supervised task.
#[derive(Clone, Copy, PartialEq, Eq, Structural, Debug)]
pub enum TaskStatus {
    Running,
    Completed,
    Failed,
    Cancelled,
}

impl TaskStatus {
    /// A terminal status: the task has finished and will not run again.
    pub open spec fn spec_is_terminal(&self) -> bool {
        *self == TaskStatus::Completed || *self == TaskStatus::Failed
            || *self == TaskStatus::Cancelled
    }

    #[verifier::when_used_as_spec(spec_is_terminal)]
    pub fn is_terminal(&self) -> (r: bool)
        ensures
            r == self.spec_is_terminal(),
    {
        match self {
            TaskStatus::Running => false,
            TaskStatus::Completed => true,
            TaskStatus::Failed => true,
            TaskStatus::Cancelled => true,
        }
    }

    /// The lower-case label under which this status appears in the persisted
    /// document.
    pub open spec fn spec_label(self) -> Seq<char> {
        match self {
            TaskStatus::Running => "running"@,
            TaskStatus::Completed => "completed"@,
            TaskStatus::Failed => "failed"@,
            TaskStatus::Cancelled => "cancelled"@,
        }
    }

    /// Lower-case label of the status.
    pub fn to_string(&self) -> (r: String)
        ensures
            r@ == self.spec_label(),
    {
        match self {
            TaskStatus::Running => "running".to_owned(),
            TaskStatus::Completed => "completed".to_owned(),
            TaskStatus::Failed => "failed".to_owned(),
            TaskStatus::Cancelled => "cancelled".to_owned(),
        }
    }
}

/// Mathematical value of a [`NativeTask`].
pub struct NativeTaskView {
    pub pid: int,
    pub pgid: int,
    pub start_time: Seq<char>,
    pub env_tag: Option<Seq<char>>,
}

/// Handle of a task running as a native OS process. `start_time` is an opaque
/// fingerprint of the process-creation instant, kept to detect PID reuse.
pub struct NativeTask {
    pub pid: i32,
    pub pgid: i32,
    pub start_time: String,
    pub env_tag: Option<String>,
}

impl View for NativeTask {
    type V = NativeTaskView;

    open spec fn view(&self) -> NativeTaskView {
        NativeTaskView {
            pid: self.pid as int,
            pgid: self.pgid as int,
            start_time: self.start_time@,
            env_tag: match self.env_tag {
                Some(t) => Some(t@),
                None => None,
            },
        }
    }
}

impl NativeTask {
    /// A copy with the same value.
    pub fn duplicate(&self) -> (r: NativeTask)
        ensures
            r@ == self@,
    {
        NativeTask {
            pid: self.pid,
            pgid: self.pgid,
            start_time: self.start_time.clone(),
            env_tag: match &self.env_tag {
                Some(t) => Some(t.clone()),
                None => None,
            },
        }
    }
}

/// Mathematical value of a [`ResourceLimits`].
pub struct ResourceLimitsView {
    pub memory: Seq<char>,
    pub cpu: Seq<char>,
}

/// Resource limits requested for a container, kept as the strings the
/// container engine accepts (for example `"512m"` and `"1.0"`).
pub struct ResourceLimits {
    pub memory: String,
    pub cpu: String,
}

impl View for ResourceLimits {
    type V = ResourceLimitsView;

    open spec fn view(&self) -> ResourceLimitsView {
        ResourceLimitsView { memory: self.memory@, cpu: self.cpu@ }
    }
}

impl ResourceLimits {
    /// A copy with the same value.
    pub fn duplicate(&self) -> (r: ResourceLimits)
        ensures
            r@ == self@,
    {
        ResourceLimits { memory: self.memory.clone(), cpu: self.cpu.clone() }
    }
}

impl Default for ResourceLimits {
    /// The limits used when a caller states none.
    fn default() -> (r: Self)
        ensures
            r@.memory == "512m"@,
            r@.cpu == "1.0"@,
    {
        ResourceLimits { memory: "512m".to_owned(), cpu: "1.0".to_owned() }
    }
}

/// Mathematical value of a [`DockerTask`].
pub struct DockerTaskView {
    pub container_id: Seq<char>,
    pub container_name: Seq<char>,
    pub resource_limits: ResourceLimitsView,
}

/// Handle of a task running as a container of the external engine.
pub struct DockerTask {
    pub container_id: String,
    pub container_name: String,
    pub resource_limits: ResourceLimits,
}

impl View for DockerTask {
    type V = DockerTaskView;

    open spec fn view(&self) -> DockerTaskView {
        DockerTaskView {
            container_id: self.container_id@,
            container_name: self.container_name@,
            resource_limits: self.resource_limits@,
        }
    }
}

impl DockerTask {
    /// A copy with the same value.
    pub fn duplicate(&self) -> (r: DockerTask)
        ensures
            r@ == self@,
    {
        DockerTask {
            container_id: self.container_id.clone(),
            container_name: self.container_name.clone(),
            resource_limits: self.resource_limits.duplicate(),
        }
    }
}

/// Mathematical value of a [`TaskInfo`].
pub struct TaskInfoView {
    pub mode: ExecutionMode,
    pub command: Seq<char>,
    pub status: TaskStatus,
    pub started_at: int,
    pub completed_at: Option<int>,
    pub native: Option<NativeTaskView>,
    pub docker: Option<DockerTaskView>,
    pub constitution_rules: Seq<Seq<char>>,
}

impl TaskInfoView {
    /// Record invariant: a populated handle matches the mode, `completed_at`
    /// is set exactly on the terminal statuses, and every number fits the
    /// machine type that carries it.
    pub open spec fn wf(self) -> bool {
        &&& (self.native is Some ==> self.mode == ExecutionMode::Native)
        &&& (self.docker is Some ==> self.mode == ExecutionMode::Docker)
        &&& (self.completed_at is Some <==> self.status.spec_is_terminal())
        &&& (match self.native {
            Some(n) => (i32::MIN as int) <= n.pid <= (i32::MAX as int) && (i32::MIN as int)
                <= n.pgid <= (i32::MAX as int),
            None => true,
        })
        &&& (i64::MIN as int) <= self.started_at <= (i64::MAX as int)
        &&& (match self.completed_at {
            Some(t) => (i64::MIN as int) <= t <= (i64::MAX as int),
            None => true,
        })
    }
}

/// One supervised task record. Timestamps are UTC, in whole seconds from the
/// Unix epoch.
pub struct TaskInfo {
    pub mode: ExecutionMode,
    pub command: String,
    pub status: TaskStatus,
    pub started_at: i64,
    pub completed_at: Option<i64>,
    pub native: Option<NativeTask>,
    pub docker: Option<DockerTask>,
    pub constitution_rules: Vec<String>,
}

impl View for TaskInfo {
    type V = TaskInfoView;

    open spec fn view(&self) -> TaskInfoView {
        TaskInfoView {
            mode: self.mode,
            command: self.command@,
            status: self.status,
            started_at: self.started_at as int,
            completed_at: match self.completed_at {
                Some(t) => Some(t as int),
                None => None,
            },
            native: match self.native {
                Some(n) => Some(n@),
                None => None,
            },
            docker: match self.docker {
                Some(d) => Some(d@),
                None => None,
            },
            constitution_rules: Seq::new(
                self.constitution_rules@.len(),
                |i: int| self.constitution_rules@[i]@,
            ),
        }
    }
}

impl TaskInfo {
    /// A freshly registered task: native mode, running, started at `now`,
    /// with no handle yet and the given policy rules attached.
    pub fn register(command: String, constitution_rules: Vec<String>, now: i64) -> (r: TaskInfo)
        ensures
            r@.mode == ExecutionMode::Native,
            r@.command == command@,
            r@.status == TaskStatus::Running,
            r@.started_at == now as int,
            r@.completed_at is None,
            r@.native is None,
            r@.docker is None,
            r@.constitution_rules == Seq::new(
                constitution_rules@.len(),
                |i: int| constitution_rules@[i]@,
            ),
            r@.wf(),
    {
        TaskInfo {
            mode: ExecutionMode::Native,
            command,
            status: TaskStatus::Running,
            started_at: now,
            completed_at: None,
            native: None,
            docker: None,
            constitution_rules,
        }
    }

    /// A copy with the same value.
    pub fn duplicate(&self) -> (r: TaskInfo)
        ensures
            r@ == self@,
    {
        let mut rules: Vec<String> = Vec::new();
        let n = self.constitution_rules.len();
        for i in 0..n
            invariant
                n == self.constitution_rules.len(),
                rules@.len() == i,
                forall|j: int| 0 <= j < i ==> rules@[j]@ == self.constitution_rules@[j]@,
        {
            rules.push(self.constitution_rules[i].clone());
        }
        let r = TaskInfo {
            mode: self.mode,
            command: self.command.clone(),
            status: self.status,
            started_at: self.started_at,
            completed_at: self.completed_at,
            native: match &self.native {
                Some(n) => Some(n.duplicate()),
                None => None,
            },
            docker: match &self.docker {
                Some(d) => Some(d.duplicate()),
                None => None,
            },
            constitution_rules: rules,
        };
        proof {
            assert(r@.constitution_rules =~= self@.constitution_rules);
        }
        r
    }
}

/// Orphan detection results for one reconciliation pass: recorded-Running
/// tasks whose entity is dead, and recorded-Completed tasks whose entity is
/// still alive. Ephemeral; never persisted.
pub struct OrphanReport {
    pub dead_processes: Vec<String>,
    pub zombie_processes: Vec<String>,
}

impl OrphanReport {
    /// An empty report.
    pub fn new() -> (r: OrphanReport)
        ensures
            r.dead_processes@.len() == 0,
            r.zombie_processes@.len() == 0,
    {
        OrphanReport { dead_processes: Vec::new(), zombie_processes: Vec::new() }
    }

    /// Whether the pass found anything to repair.
    pub fn has_issues(&self) -> (r: bool)
        ensures
            r == (self.dead_processes@.len() > 0 || self.zombie_processes@.len() > 0),
    {
        self.dead_processes.len() > 0 || self.zombie_processes.len() > 0
    }

    /// How many records need repair.
    pub fn total_issues(&self) -> (r: usize)
        requires
            self.dead_processes@.len() + self.zombie_processes@.len() <= usize::MAX,
        ensures
            r == self.dead_processes@.len() + self.zombie_processes@.len(),
    {
        self.dead_processes.len() + self.zombie_processes.len()
    }
}

/// Counts over the registry, computed by [`crate::registry::ProcessRegistry::stats`].
pub struct RegistryStats {
    pub total: usize,
    pub running: usize,
    pub completed: usize,
    pub failed: usize,
}

} // verus!
