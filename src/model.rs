use vstd::prelude::*;

use crate::text::same_text;

verus! {

/// How urgent a task is.
#[derive(PartialEq, Eq, Structural, Clone, Copy, Debug)]
pub enum Priority {
    Low,
    Medium,
    High,
}

/// Where a task stands.
#[derive(PartialEq, Eq, Structural, Clone, Copy, Debug)]
pub enum Status {
    ToDo,
    InProgress,
    Done,
}

/// The typed failures of the core.
#[derive(PartialEq, Eq, Structural, Clone, Copy, Debug)]
pub enum TaskError {
    /// A required text field was empty at creation.
    ValidationError,
    /// The operation targets an id that holds no record.
    NotFound,
    /// The key-value store could not be reached or answered out of protocol.
    StoreUnavailable,
    /// A stored record lacks a field or holds one that does not decode.
    Corrupt,
}

/// The canonical name of a priority, as stored.
pub open spec fn priority_name(p: Priority) -> Seq<char> {
    match p {
        Priority::Low => seq!['L', 'o', 'w'],
        Priority::Medium => seq!['M', 'e', 'd', 'i', 'u', 'm'],
        Priority::High => seq!['H', 'i', 'g', 'h'],
    }
}

/// The priority whose canonical name is `s`, if any.
pub open spec fn priority_named(s: Seq<char>) -> Option<Priority> {
    if s == priority_name(Priority::Low) {
        Some(Priority::Low)
    } else if s == priority_name(Priority::Medium) {
        Some(Priority::Medium)
    } else if s == priority_name(Priority::High) {
        Some(Priority::High)
    } else {
        None
    }
}

/// The canonical name of a status, as stored.
pub open spec fn status_name(s: Status) -> Seq<char> {
    match s {
        Status::ToDo => seq!['T', 'o', 'D', 'o'],
        Status::InProgress => seq!['I', 'n', 'P', 'r', 'o', 'g', 'r', 'e', 's', 's'],
        Status::Done => seq!['D', 'o', 'n', 'e'],
    }
}

/// The status whose canonical name is `s`, if any.
pub open spec fn status_named(s: Seq<char>) -> Option<Status> {
    if s == status_name(Status::ToDo) {
        Some(Status::ToDo)
    } else if s == status_name(Status::InProgress) {
        Some(Status::InProgress)
    } else if s == status_name(Status::Done) {
        Some(Status::Done)
    } else {
        None
    }
}

/// Each canonical name reads back as the value it names.
pub proof fn lemma_names_round_trip(p: Priority, s: Status)
    ensures
        priority_named(priority_name(p)) == Some(p),
        status_named(status_name(s)) == Some(s),
{
    assert(priority_name(Priority::Low) != priority_name(Priority::Medium));
    assert(priority_name(Priority::Low) != priority_name(Priority::High));
    assert(priority_name(Priority::Medium) != priority_name(Priority::High));
    assert(status_name(Status::ToDo) != status_name(Status::InProgress));
    assert(status_name(Status::ToDo)[0] != status_name(Status::Done)[0]);
    assert(status_name(Status::InProgress) != status_name(Status::Done));
}

impl Priority {
    /// The canonical name: "Low", "Medium" or "High".
    pub fn canonical_name(&self) -> (r: &'static str)
        ensures
            r@ == priority_name(*self),
    {
        proof {
            reveal_strlit("Low");
            reveal_strlit("Medium");
            reveal_strlit("High");
        }
        match self {
            Priority::Low => "Low",
            Priority::Medium => "Medium",
            Priority::High => "High",
        }
    }

    /// The priority with this canonical name; names are matched exactly.
    pub fn from_canonical_name(s: &str) -> (r: Option<Priority>)
        ensures
            r == priority_named(s@),
    {
        if same_text(s, Priority::Low.canonical_name()) {
            Some(Priority::Low)
        } else if same_text(s, Priority::Medium.canonical_name()) {
            Some(Priority::Medium)
        } else if same_text(s, Priority::High.canonical_name()) {
            Some(Priority::High)
        } else {
            None
        }
    }
}

impl Status {
    /// The canonical name: "ToDo", "InProgress" or "Done".
    pub fn canonical_name(&self) -> (r: &'static str)
        ensures
            r@ == status_name(*self),
    {
        proof {
            reveal_strlit("ToDo");
            reveal_strlit("InProgress");
            reveal_strlit("Done");
        }
        match self {
            Status::ToDo => "ToDo",
            Status::InProgress => "InProgress",
            Status::Done => "Done",
        }
    }

    /// The status with this canonical name; names are matched exactly.
    pub fn from_canonical_name(s: &str) -> (r: Option<Status>)
        ensures
            r == status_named(s@),
    {
        if same_text(s, Status::ToDo.canonical_name()) {
            Some(Status::ToDo)
        } else if same_text(s, Status::InProgress.canonical_name()) {
            Some(Status::InProgress)
        } else if same_text(s, Status::Done.canonical_name()) {
            Some(Status::Done)
        } else {
            None
        }
    }
}

/// A calendar date.
#[derive(PartialEq, Eq, Structural, Clone, Copy, Debug)]
pub struct Date {
    pub year: u32,
    pub month: u32,
    pub day: u32,
}

pub open spec fn is_leap_year(y: int) -> bool {
    (y % 4 == 0 && y % 100 != 0) || y % 400 == 0
}

pub open spec fn days_in_month(y: int, m: int) -> int {
    if m == 2 {
        if is_leap_year(y) { 29 } else { 28 }
    } else if m == 4 || m == 6 || m == 9 || m == 11 {
        30
    } else {
        31
    }
}

/// A real calendar date whose year has at most four digits.
pub open spec fn valid_date(y: int, m: int, d: int) -> bool {
    &&& 0 <= y <= 9999
    &&& 1 <= m <= 12
    &&& 1 <= d <= days_in_month(y, m)
}

/// `a` falls on or before `b`.
pub open spec fn date_le(a: Date, b: Date) -> bool {
    a.year < b.year || (a.year == b.year && (a.month < b.month || (a.month == b.month
        && a.day <= b.day)))
}

impl Date {
    pub open spec fn wf(self) -> bool {
        valid_date(self.year as int, self.month as int, self.day as int)
    }

    /// The date with these parts, if they name a real day of a four-digit year.
    pub fn new(year: u32, month: u32, day: u32) -> (r: Option<Date>)
        ensures
            r is Some <==> valid_date(year as int, month as int, day as int),
            r matches Some(d) ==> d.year == year && d.month == month && d.day == day,
    {
        if year > 9999 || month < 1 || month > 12 || day < 1 {
            return None;
        }
        let leap = (year % 4 == 0 && year % 100 != 0) || year % 400 == 0;
        let last: u32 = if month == 2 {
            if leap { 29 } else { 28 }
        } else if month == 4 || month == 6 || month == 9 || month == 11 {
            30
        } else {
            31
        };
        if day > last {
            None
        } else {
            Some(Date { year, month, day })
        }
    }

    /// The date with these parts, where the year comes as a clock reports it,
    /// possibly negative; `None` unless they name a real day of a four-digit year.
    pub fn from_parts(year: i32, month: u32, day: u32) -> (r: Option<Date>)
        ensures
            r is Some <==> (year >= 0 && valid_date(year as int, month as int, day as int)),
            r matches Some(d) ==> d.year == year && d.month == month && d.day == day,
    {
        if year < 0 {
            return None;
        }
        Date::new(year as u32, month, day)
    }

    /// Whether `self` falls on or before `other`.
    pub fn on_or_before(&self, other: &Date) -> (r: bool)
        ensures
            r == date_le(*self, *other),
    {
        self.year < other.year || (self.year == other.year && (self.month < other.month || (
        self.month == other.month && self.day <= other.day)))
    }
}

/// A task as values: what contracts speak of.
pub struct TaskView {
    pub id: u32,
    pub title: Seq<char>,
    pub description: Seq<char>,
    pub priority: Priority,
    pub status: Status,
    pub created_at: Date,
}

/// One task record.
#[derive(Clone, Debug)]
pub struct Task {
    pub id: u32,
    pub title: String,
    pub description: String,
    pub priority: Priority,
    pub status: Status,
    pub created_at: Date,
}

impl View for Task {
    type V = TaskView;

    open spec fn view(&self) -> TaskView {
        TaskView {
            id: self.id,
            title: self.title@,
            description: self.description@,
            priority: self.priority,
            status: self.status,
            created_at: self.created_at,
        }
    }
}

/// A record that may exist: both texts non-empty and a real creation date.
pub open spec fn task_wf(t: TaskView) -> bool {
    &&& t.title.len() > 0
    &&& t.description.len() > 0
    &&& t.created_at.wf()
}

/// What creation makes of its inputs.
pub open spec fn created_task(
    id: u32,
    title: Seq<char>,
    description: Seq<char>,
    priority: Priority,
    created_at: Date,
) -> TaskView {
    TaskView { id, title, description, priority, status: Status::ToDo, created_at }
}

/// Checks the texts of a task to be created: `ValidationError` exactly when the
/// title or the description is empty.
pub fn validate_texts(title: &str, description: &str) -> (r: Result<(), TaskError>)
    ensures
        r is Err <==> (title@.len() == 0 || description@.len() == 0),
        r is Err ==> r == Err::<(), TaskError>(TaskError::ValidationError),
{
    if title.unicode_len() == 0 || description.unicode_len() == 0 {
        Err(TaskError::ValidationError)
    } else {
        Ok(())
    }
}

impl Task {
    pub open spec fn wf(&self) -> bool {
        task_wf(self@)
    }

    /// A new record under a freshly allocated `id`, in status `ToDo`.
    /// Fails with `ValidationError` when the title or the description is empty.
    pub fn new(id: u32, title: String, description: String, priority: Priority, created_at: Date) -> (r:
        Result<Task, TaskError>)
        requires
            created_at.wf(),
        ensures
            r is Err <==> (title@.len() == 0 || description@.len() == 0),
            r is Err ==> r == Err::<Task, TaskError>(TaskError::ValidationError),
            r matches Ok(t) ==> t@ == created_task(id, title@, description@, priority, created_at)
                && t.wf(),
    {
        if title.as_str().unicode_len() == 0 || description.as_str().unicode_len() == 0 {
            return Err(TaskError::ValidationError);
        }
        Ok(Task { id, title, description, priority, status: Status::ToDo, created_at })
    }

    /// An independent copy with the same fields.
    pub fn duplicate(&self) -> (r: Task)
        ensures
            r@ == self@,
    {
        Task {
            id: self.id,
            title: self.title.clone(),
            description: self.description.clone(),
            priority: self.priority,
            status: self.status,
            created_at: self.created_at,
        }
    }

    /// Overwrites the status and nothing else; any status may follow any other.
    pub fn set_status(&mut self, status: Status)
        ensures
            final(self)@ == (TaskView { status, ..old(self)@ }),
    {
        self.status = status;
    }
}

} // verus!
