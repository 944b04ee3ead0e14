//! The task model: a status enumeration with its string codes, the task
//! record with instants held as unix timestamps, the request payload with
//! its validation rules, and the response shape.
use vstd::prelude::*;

use crate::pig_latin::is_white_char;
use crate::strutil::str_chars;
use chrono::TimeZone;
use vstd::string::StringExecFns;
use vstd::string::StrSliceExecFns;

verus! {

/// How urgent a task is.
#[derive(Debug, PartialEq, Eq, Structural, Clone, Copy)]
pub enum Priority {
    Low,
    Medium,
    High,
}

/// The coarse progress states a stored task list distinguishes.
#[derive(Debug, PartialEq, Eq, Structural, Clone, Copy)]
pub enum Status {
    Pending,
    InProgress,
    Completed,
}

/// The lifecycle states of a task.
#[derive(Debug, PartialEq, Eq, Structural, Clone, Copy)]
pub enum TaskStatus {
    Pending,
    InProgress,
    Completed,
    Canceled,
}

/// The string code of each status.
pub open spec fn status_code(s: TaskStatus) -> Seq<char> {
    match s {
        TaskStatus::Pending => "pending"@,
        TaskStatus::InProgress => "in_progress"@,
        TaskStatus::Completed => "completed"@,
        TaskStatus::Canceled => "canceled"@,
    }
}

/// The status a string code names, if any.
pub open spec fn status_of_code(s: Seq<char>) -> Option<TaskStatus> {
    if s == "pending"@ {
        Some(TaskStatus::Pending)
    } else if s == "in_progress"@ {
        Some(TaskStatus::InProgress)
    } else if s == "completed"@ {
        Some(TaskStatus::Completed)
    } else if s == "canceled"@ {
        Some(TaskStatus::Canceled)
    } else {
        None
    }
}

impl TaskStatus {
    /// The status's string code.
    pub fn as_str(&self) -> (r: &str)
        ensures
            r@ == status_code(*self),
    {
        match self {
            TaskStatus::Pending => "pending",
            TaskStatus::InProgress => "in_progress",
            TaskStatus::Completed => "completed",
            TaskStatus::Canceled => "canceled",
        }
    }

    /// The status named by a string code; an unknown code is reported in
    /// the error message.
    pub fn from_str(status: &str) -> (r: Result<Self, String>)
        ensures
            match r {
                Ok(s) => status_of_code(status@) == Some(s),
                Err(m) => status_of_code(status@) is None && m@ == "Unknown task status: "@
                    + status@,
            },
    {
        let s: String = status.to_owned();
        if s == String::from_str("pending") {
            Ok(TaskStatus::Pending)
        } else if s == String::from_str("in_progress") {
            Ok(TaskStatus::InProgress)
        } else if s == String::from_str("completed") {
            Ok(TaskStatus::Completed)
        } else if s == String::from_str("canceled") {
            Ok(TaskStatus::Canceled)
        } else {
            let mut m = String::from_str("Unknown task status: ");
            m.append(status);
            Err(m)
        }
    }
}

/// A task, instants as unix timestamps in seconds.
pub struct Task {
    pub id: i32,
    pub title: String,
    pub description: String,
    pub status: TaskStatus,
    pub starts_at: i64,
    pub ends_at: Option<i64>,
    pub created_at: i64,
    pub updated_at: i64,
}

/// The persistence-layer shape of a task: the status as its string code.
pub struct TaskModel {
    pub id: i32,
    pub title: String,
    pub description: String,
    pub status: String,
    pub starts_at: i64,
    pub ends_at: Option<i64>,
    pub created_at: i64,
    pub updated_at: i64,
}

/// A request to create or update a task.
pub struct TaskRequest {
    pub title: String,
    pub description: String,
    pub status: String,
    pub starts_at: i64,
    pub ends_at: Option<i64>,
}

/// The response shape of a task, instants as unix timestamps.
pub struct TaskResponse {
    pub id: i32,
    pub title: String,
    pub description: String,
    pub status: String,
    pub starts_at: i64,
    pub ends_at: Option<i64>,
    pub created_at: i64,
    pub updated_at: i64,
}

/// The timestamps chrono can represent as an instant, in seconds.
pub open spec fn ts_in_range(ts: i64) -> bool {
    -8334601228800 <= ts <= 8210266876799
}

/// Relies on chrono's `Utc.timestamp_opt`: a single instant exactly when
/// the seconds lie within chrono's representable range.
#[verifier::external_body]
fn timestamp_valid(ts: i64) -> (r: bool)
    ensures
        r == ts_in_range(ts),
{
    chrono::Utc.timestamp_opt(ts, 0).single().is_some()
}

/// Relies on chrono's `Utc::now`: the current unix timestamp. What it is
/// depends on the clock; it always lies within chrono's range.
#[verifier::external_body]
fn now_timestamp() -> (r: i64)
    ensures
        ts_in_range(r),
{
    chrono::Utc::now().timestamp()
}

/// Nothing in the string but whitespace.
pub open spec fn all_whitespace(s: Seq<char>) -> bool {
    forall|i: int| 0 <= i < s.len() ==> is_white_char(#[trigger] s[i])
}

/// Whether the string survives trimming: it holds a non-whitespace
/// character.
fn has_content(s: &str) -> (r: bool)
    ensures
        r == !all_whitespace(s@),
{
    let cs = str_chars(s);
    let n = cs.len();
    let mut i: usize = 0;
    while i < n
        invariant
            i <= n,
            n == s@.len(),
            cs@ == s@,
            forall|j: int| 0 <= j < i ==> is_white_char(#[trigger] s@[j]),
        decreases n - i,
    {
        if !crate::pig_latin::char_is_whitespace(cs[i]) {
            return true;
        }
        i = i + 1;
    }
    false
}

/// The error a task request earns, if any: empty title or description,
/// an unrepresentable instant, an end not after the start, or an unknown
/// status code — the first that applies, in that order.
pub open spec fn spec_task_request_error(r: TaskRequest) -> Option<Seq<char>> {
    if all_whitespace(r.title@) {
        Some("Title cannot be empty."@)
    } else if all_whitespace(r.description@) {
        Some("Description cannot be empty."@)
    } else if !ts_in_range(r.starts_at) {
        Some("Invalid date timestamp provided."@)
    } else if r.ends_at matches Some(e) && !ts_in_range(e) {
        Some("Invalid end date timestamp provided."@)
    } else if r.ends_at matches Some(e) && e <= r.starts_at {
        Some("End date must be later than start date."@)
    } else if status_of_code(r.status@) is None {
        Some("Invalid status: "@ + r.status@ + "."@)
    } else {
        None
    }
}

impl TaskRequest {
    /// Validate the request: `Ok` exactly when no rule rejects it, else
    /// the first failed rule's message.
    pub fn validate(&self) -> (r: Result<(), String>)
        ensures
            r is Ok <==> spec_task_request_error(*self) is None,
            r matches Err(m) ==> spec_task_request_error(*self) == Some(m@),
    {
        if !has_content(self.title.as_str()) {
            return Err(String::from_str("Title cannot be empty."));
        }
        if !has_content(self.description.as_str()) {
            return Err(String::from_str("Description cannot be empty."));
        }
        if !timestamp_valid(self.starts_at) {
            return Err(String::from_str("Invalid date timestamp provided."));
        }
        if let Some(e) = self.ends_at {
            if !timestamp_valid(e) {
                return Err(String::from_str("Invalid end date timestamp provided."));
            }
            if e <= self.starts_at {
                return Err(String::from_str("End date must be later than start date."));
            }
        }
        if TaskStatus::from_str(self.status.as_str()).is_err() {
            let mut m = String::from_str("Invalid status: ");
            m.append(self.status.as_str());
            m.append(".");
            return Err(m);
        }
        Ok(())
    }

    /// A timestamp clamped to what chrono represents: itself when in
    /// range, the current instant otherwise.
    fn datetime(timestamp: i64) -> (r: i64)
        ensures
            ts_in_range(timestamp) ==> r == timestamp,
            ts_in_range(r),
    {
        if timestamp_valid(timestamp) {
            timestamp
        } else {
            now_timestamp()
        }
    }
}

impl Task {
    /// The task a request describes, stamped with the given instant: an
    /// unset id, the requested fields, an unknown status falling back to
    /// pending, out-of-range instants falling back to `now`.
    pub fn from_request(request: TaskRequest, now: i64) -> (r: Task)
        ensures
            r.id == 0,
            r.title@ == request.title@,
            r.description@ == request.description@,
            r.status == (match status_of_code(request.status@) {
                Some(s) => s,
                None => TaskStatus::Pending,
            }),
            ts_in_range(r.starts_at),
            ts_in_range(request.starts_at) ==> r.starts_at == request.starts_at,
            request.ends_at is None ==> r.ends_at is None,
            request.ends_at matches Some(e) ==> (ts_in_range(e) ==> r.ends_at == Some(e)),
            request.ends_at is Some ==> (r.ends_at matches Some(e2) && ts_in_range(e2)),
            r.created_at == now,
            r.updated_at == now,
    {
        let starts_at = TaskRequest::datetime(request.starts_at);
        let ends_at = match request.ends_at {
            Some(e) => Some(TaskRequest::datetime(e)),
            None => None,
        };
        let status = match TaskStatus::from_str(request.status.as_str()) {
            Ok(s) => s,
            Err(_) => TaskStatus::Pending,
        };
        Task {
            id: 0,
            title: request.title,
            description: request.description,
            status,
            starts_at,
            ends_at,
            created_at: now,
            updated_at: now,
        }
    }

    /// The task a stored record describes: an unknown status code falls
    /// back to pending.
    pub fn from_model(model: TaskModel) -> (r: Task)
        ensures
            r.id == model.id,
            r.title@ == model.title@,
            r.description@ == model.description@,
            r.status == (match status_of_code(model.status@) {
                Some(s) => s,
                None => TaskStatus::Pending,
            }),
            r.starts_at == model.starts_at,
            r.ends_at == model.ends_at,
            r.created_at == model.created_at,
            r.updated_at == model.updated_at,
    {
        let status = match TaskStatus::from_str(model.status.as_str()) {
            Ok(s) => s,
            Err(_) => TaskStatus::Pending,
        };
        Task {
            id: model.id,
            title: model.title,
            description: model.description,
            status,
            starts_at: model.starts_at,
            ends_at: model.ends_at,
            created_at: model.created_at,
            updated_at: model.updated_at,
        }
    }
}

impl TaskModel {
    /// The stored record of a task: the status as its string code.
    pub fn from_task(task: Task) -> (r: TaskModel)
        ensures
            r.id == task.id,
            r.title@ == task.title@,
            r.description@ == task.description@,
            r.status@ == status_code(task.status),
            r.starts_at == task.starts_at,
            r.ends_at == task.ends_at,
            r.created_at == task.created_at,
            r.updated_at == task.updated_at,
    {
        let status: String = task.status.as_str().to_owned();
        TaskModel {
            id: task.id,
            title: task.title,
            description: task.description,
            status,
            starts_at: task.starts_at,
            ends_at: task.ends_at,
            created_at: task.created_at,
            updated_at: task.updated_at,
        }
    }
}

impl From<TaskModel> for Task {
    fn from(model: TaskModel) -> (r: Self) {
        Task::from_model(model)
    }
}

// `From` carries no specification here (it builds fresh strings and, for a
// request, reads the clock); the contract stands on the named constructor.
impl vstd::std_specs::convert::FromSpecImpl<TaskModel> for Task {
    open spec fn obeys_from_spec() -> bool {
        false
    }

    open spec fn from_spec(model: TaskModel) -> Self {
        arbitrary()
    }
}

impl From<Task> for TaskModel {
    fn from(task: Task) -> (r: Self) {
        TaskModel::from_task(task)
    }
}

impl vstd::std_specs::convert::FromSpecImpl<Task> for TaskModel {
    open spec fn obeys_from_spec() -> bool {
        false
    }

    open spec fn from_spec(task: Task) -> Self {
        arbitrary()
    }
}

impl From<TaskRequest> for Task {
    fn from(request: TaskRequest) -> (r: Self) {
        let now = now_timestamp();
        Task::from_request(request, now)
    }
}

impl vstd::std_specs::convert::FromSpecImpl<TaskRequest> for Task {
    open spec fn obeys_from_spec() -> bool {
        false
    }

    open spec fn from_spec(request: TaskRequest) -> Self {
        arbitrary()
    }
}

/// A response carries exactly its task's data, the status as its code.
pub open spec fn resp_matches(r: TaskResponse, t: Task) -> bool {
    r.id == t.id && r.title@ == t.title@ && r.description@ == t.description@ && r.status@
        == status_code(t.status) && r.starts_at == t.starts_at && r.ends_at == t.ends_at
        && r.created_at == t.created_at && r.updated_at == t.updated_at
}

impl TaskResponse {
    /// The response shape of a task: the status as its string code, the
    /// instants as timestamps.
    pub fn from_task(task: Task) -> (r: TaskResponse)
        ensures
            r.id == task.id,
            r.title@ == task.title@,
            r.description@ == task.description@,
            r.status@ == status_code(task.status),
            r.starts_at == task.starts_at,
            r.ends_at == task.ends_at,
            r.created_at == task.created_at,
            r.updated_at == task.updated_at,
    {
        let status: String = task.status.as_str().to_owned();
        TaskResponse {
            id: task.id,
            title: task.title,
            description: task.description,
            status,
            starts_at: task.starts_at,
            ends_at: task.ends_at,
            created_at: task.created_at,
            updated_at: task.updated_at,
        }
    }

    /// The responses for a list of tasks, in order.
    pub fn from_tasks(tasks: Vec<Task>) -> (r: Vec<TaskResponse>)
        ensures
            r@.len() == tasks@.len(),
            forall|i: int| 0 <= i < r@.len() ==> resp_matches(#[trigger] r@[i], tasks@[i]),
    {
        let mut out: Vec<TaskResponse> = Vec::new();
        let mut rest = tasks;
        let n = rest.len();
        let ghost all = rest@;
        let mut i: usize = 0;
        while i < n
            invariant
                i <= n,
                n == all.len(),
                rest@ == all.skip(i as int),
                out@.len() == i,
                forall|j: int| 0 <= j < i ==> resp_matches(#[trigger] out@[j], all[j]),
            decreases n - i,
        {
            let task = rest.remove(0);
            proof {
                assert(task == all.skip(i as int)[0]);
                assert(task == all[i as int]);
                assert(all.skip(i as int).remove(0) =~= all.skip(i + 1));
            }
            let ghost pre_out = out@;
            let resp = TaskResponse::from_task(task);
            out.push(resp);
            proof {
                assert forall|j: int| 0 <= j <= i implies resp_matches(
                    #[trigger] out@[j],
                    all[j],
                ) by {
                    if j < i {
                        assert(out@[j] == pre_out[j]);
                    } else {
                        assert(out@[j] == resp);
                    }
                }
            }
            i = i + 1;
        }
        out
    }
}

impl From<Task> for TaskResponse {
    fn from(task: Task) -> (r: Self) {
        TaskResponse::from_task(task)
    }
}

impl vstd::std_specs::convert::FromSpecImpl<Task> for TaskResponse {
    open spec fn obeys_from_spec() -> bool {
        false
    }

    open spec fn from_spec(task: Task) -> Self {
        arbitrary()
    }
}

} // verus!
