//! The row that displays a task.

use vstd::prelude::*;
use crate::task::{status_label, status_name, Task, TaskStatus};
use crate::text::{
    canonical_text, join_texts, joined, print_time, texts, time_format, time_text, uuid_to_text,
};

verus! {

/// The displayed fields of one task.
pub struct Row {
    pub uuid: String,
    pub description: String,
    pub status: String,
    pub completed: bool,
    pub deleted: bool,
    pub tags: String,
    pub project: Option<String>,
    pub due: String,
    pub wait: String,
    pub entry: String,
    pub modified: String,
}

/// What a row shows, as plain text.
pub struct RowView {
    pub uuid: Seq<char>,
    pub description: Seq<char>,
    pub status: Seq<char>,
    pub completed: bool,
    pub deleted: bool,
    pub tags: Seq<char>,
    pub project: Option<Seq<char>>,
    pub due: Seq<char>,
    pub wait: Seq<char>,
    pub entry: Seq<char>,
    pub modified: Seq<char>,
}

impl Row {
    pub open spec fn view(&self) -> RowView {
        RowView {
            uuid: self.uuid@,
            description: self.description@,
            status: self.status@,
            completed: self.completed,
            deleted: self.deleted,
            tags: self.tags@,
            project: match self.project {
                Some(p) => Some(p@),
                None => None,
            },
            due: self.due@,
            wait: self.wait@,
            entry: self.entry@,
            modified: self.modified@,
        }
    }
}

/// The text shown for an optional time: empty where there is none or where it
/// cannot be printed.
pub open spec fn shown_time(time: Option<i64>) -> Seq<char> {
    match time {
        Some(secs) => match time_text(secs, "%F %R"@) {
            Some(text) => text,
            None => Seq::empty(),
        },
        None => Seq::empty(),
    }
}

/// The row that displays a task.
pub open spec fn row_of(task: Task) -> RowView {
    RowView {
        uuid: canonical_text(task.uuid),
        description: task.description@,
        status: status_label(task.status),
        completed: task.status == TaskStatus::Completed,
        deleted: task.status == TaskStatus::Deleted,
        tags: match task.tags {
            Some(tags) => joined(texts(tags@), ", "@),
            None => Seq::empty(),
        },
        project: match task.project {
            Some(p) => Some(p@),
            None => None,
        },
        due: shown_time(task.due),
        wait: shown_time(task.wait),
        entry: shown_time(Some(task.entry)),
        modified: shown_time(task.modified),
    }
}

/// The text shown for an optional time.
fn show_time(time: Option<i64>) -> (text: String)
    ensures
        text@ == shown_time(time),
{
    match time {
        Some(secs) => match print_time(secs, time_format()) {
            Some(text) => text,
            None => String::new(),
        },
        None => String::new(),
    }
}

/// Builds the row that displays a task.
pub fn make_row(task: &Task) -> (row: Row)
    ensures
        row@ == row_of(*task),
{
    Row {
        uuid: uuid_to_text(task.uuid),
        description: task.description.clone(),
        status: status_name(task.status).to_owned(),
        completed: task.status == TaskStatus::Completed,
        deleted: task.status == TaskStatus::Deleted,
        tags: match &task.tags {
            Some(tags) => join_texts(tags, ", "),
            None => String::new(),
        },
        project: match &task.project {
            Some(p) => Some(p.clone()),
            None => None,
        },
        due: show_time(task.due),
        wait: show_time(task.wait),
        entry: show_time(Some(task.entry)),
        modified: show_time(task.modified),
    }
}

} // verus!
