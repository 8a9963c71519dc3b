//! Tasks: work that is due at some instant.

use vstd::prelude::*;

verus! {

/// One named part of a task, with the minutes it is expected to take.
#[derive(Debug)]
pub struct Subtask {
    pub name: String,
    pub duration: u64,
}

/// What a [`Subtask`] is in contracts.
pub struct SubtaskView {
    pub name: Seq<char>,
    pub duration: nat,
}

impl View for Subtask {
    type V = SubtaskView;

    open spec fn view(&self) -> SubtaskView {
        SubtaskView { name: self.name@, duration: self.duration as nat }
    }
}

impl Clone for Subtask {
    fn clone(&self) -> (copy: Self)
        ensures
            copy == *self,
    {
        Subtask { name: self.name.clone(), duration: self.duration }
    }
}

/// How long a task is expected to take: a flat number of minutes, or a list
/// of subtasks that each have their own.
#[derive(Debug)]
pub enum TaskDuration {
    Minutes(u64),
    Subtasks(Vec<Subtask>),
}

/// What a [`TaskDuration`] is in contracts.
pub enum TaskDurationView {
    Minutes(nat),
    Subtasks(Seq<SubtaskView>),
}

/// The subtasks of a list, each as it is in contracts.
pub open spec fn subtask_views(subtasks: Seq<Subtask>) -> Seq<SubtaskView> {
    subtasks.map_values(|s: Subtask| s@)
}

impl View for TaskDuration {
    type V = TaskDurationView;

    open spec fn view(&self) -> TaskDurationView {
        match self {
            TaskDuration::Minutes(m) => TaskDurationView::Minutes(*m as nat),
            TaskDuration::Subtasks(subs) => TaskDurationView::Subtasks(subtask_views(subs@)),
        }
    }
}

impl Clone for TaskDuration {
    fn clone(&self) -> (copy: Self)
        ensures
            copy@ == self@,
    {
        match self {
            TaskDuration::Minutes(m) => TaskDuration::Minutes(*m),
            TaskDuration::Subtasks(subs) => {
                let mut copies: Vec<Subtask> = Vec::new();
                let mut i: usize = 0;
                while i < subs.len()
                    invariant
                        i <= subs.len(),
                        copies@ == subs@.take(i as int),
                    decreases subs.len() - i,
                {
                    copies.push(subs[i].clone());
                    assert(subs@.take(i + 1) == subs@.take(i as int).push(subs@[i as int]));
                    i += 1;
                }
                assert(subs@.take(subs.len() as int) == subs@);
                TaskDuration::Subtasks(copies)
            },
        }
    }
}

/// Something to get done by a due date.
#[derive(Debug)]
pub struct Task {
    /// The name of the task.
    pub name: String,
    /// When the task is due, in seconds since the Unix epoch.
    pub due_date: i64,
    /// The user's estimation on how long the task will take.
    pub duration: TaskDuration,
    /// True if the task is complete.
    pub done: bool,
    /// How many days before its due date the task comes up for scheduling.
    pub consideration_period_days: u32,
}

/// What a [`Task`] is in contracts.
pub struct TaskView {
    pub name: Seq<char>,
    pub due_date: int,
    pub duration: TaskDurationView,
    pub done: bool,
    pub consideration_period_days: nat,
}

impl TaskView {
    /// A task is past due at an instant when its due date is not after it.
    pub open spec fn past_due(self, at: int) -> bool {
        self.due_date <= at
    }

    /// A task is considered at an instant when the instant is no more than
    /// the task's consideration period before its due date.
    pub open spec fn considered(self, at: int) -> bool {
        self.due_date - self.consideration_period_days * 86_400 <= at
    }
}

impl View for Task {
    type V = TaskView;

    open spec fn view(&self) -> TaskView {
        TaskView {
            name: self.name@,
            due_date: self.due_date as int,
            duration: self.duration@,
            done: self.done,
            consideration_period_days: self.consideration_period_days as nat,
        }
    }
}

impl Clone for Task {
    fn clone(&self) -> (copy: Self)
        ensures
            copy@ == self@,
    {
        Task {
            name: self.name.clone(),
            due_date: self.due_date,
            duration: self.duration.clone(),
            done: self.done,
            consideration_period_days: self.consideration_period_days,
        }
    }
}

/// The tasks of a list, each as it is in contracts.
pub open spec fn task_views(tasks: Seq<Task>) -> Seq<TaskView> {
    tasks.map_values(|t: Task| t@)
}

impl Task {
    /// A task that was just entered: it is not done, and comes up for
    /// scheduling three days before it is due.
    pub fn new(name: String, due_date: i64, duration: TaskDuration) -> (task: Self)
        ensures
            task.name == name,
            task.due_date == due_date,
            task.duration == duration,
            !task.done,
            task.consideration_period_days == 3,
    {
        Task { name, due_date, duration, done: false, consideration_period_days: 3 }
    }

    /// Whether the due date has been reached at `at`.
    pub fn is_past_due(&self, at: i64) -> (yes: bool)
        ensures
            yes == self@.past_due(at as int),
    {
        self.due_date <= at
    }

    /// Whether the task is already up for scheduling at `at`.
    pub fn is_considered(&self, at: i64) -> (yes: bool)
        ensures
            yes == self@.considered(at as int),
    {
        let earliest: i128 = self.due_date as i128 - self.consideration_period_days as i128
            * 86_400;
        earliest <= at as i128
    }
}

} // verus!
