//! The decisions of the task menu: what a selection means, how a task is
//! labelled, how a chosen channel is named in a task, and how the results
//! of several harvests add up.

use vstd::prelude::*;
use crate::config::ChannelConfig;
use crate::harvest::HarvestStats;
use crate::interactive::ChannelInfo;
use crate::text::{
    decimal_i64, decimal_of_int, decimal_of_nat, decimal_u64, lemma_decimal_round_trip, parsed_i64,
    string_of,
};

verus! {

/// At most this many harvests run at once.
pub const MAX_CONCURRENT_TASKS: usize = 3;

/// What a selection in the task menu means. The menu lists the tasks, then
/// "run all", "add a task" and "quit".
#[derive(Debug, Clone, Copy, PartialEq, Eq, Structural)]
pub enum MenuChoice {
    Task(usize),
    RunAll,
    AddTask,
    Exit,
    /// Beyond the end of the menu.
    Invalid,
}

/// Reads a selection among `task_count` tasks and the three fixed entries.
pub fn menu_choice(selection: usize, task_count: usize) -> (r: MenuChoice)
    ensures
        r == (if selection < task_count {
            MenuChoice::Task(selection)
        } else if selection == task_count {
            MenuChoice::RunAll
        } else if selection == task_count + 1 {
            MenuChoice::AddTask
        } else if selection == task_count + 2 {
            MenuChoice::Exit
        } else {
            MenuChoice::Invalid
        }),
{
    if selection < task_count {
        MenuChoice::Task(selection)
    } else if selection - task_count == 0 {
        MenuChoice::RunAll
    } else if selection - task_count == 1 {
        MenuChoice::AddTask
    } else if selection - task_count == 2 {
        MenuChoice::Exit
    } else {
        MenuChoice::Invalid
    }
}

/// What can be done with one task.
#[derive(Debug, Clone, Copy, PartialEq, Eq, Structural)]
pub enum TaskAction {
    Run,
    EditFilter,
    Delete,
    Back,
}

impl TaskAction {
    /// The action at `index` in the task submenu.
    pub fn from_index(index: usize) -> (r: Option<TaskAction>)
        ensures
            r == (if index == 0 {
                Some(TaskAction::Run)
            } else if index == 1 {
                Some(TaskAction::EditFilter)
            } else if index == 2 {
                Some(TaskAction::Delete)
            } else if index == 3 {
                Some(TaskAction::Back)
            } else {
                None
            }),
    {
        if index == 0 {
            Some(TaskAction::Run)
        } else if index == 1 {
            Some(TaskAction::EditFilter)
        } else if index == 2 {
            Some(TaskAction::Delete)
        } else if index == 3 {
            Some(TaskAction::Back)
        } else {
            None
        }
    }
}

/// How a task's filter is summed up in the menu: its reaction minimum, or
/// else its comment minimum, or `无过滤`.
pub open spec fn filter_summary(cfg: ChannelConfig) -> Seq<char> {
    match cfg.filter.reactions {
        Some(r) => "reactions>="@ + decimal_of_int(r.min_specific_total as int),
        None => match cfg.filter.comments {
            Some(c) => "comments>="@ + decimal_of_int(c.min as int),
            None => "无过滤"@,
        },
    }
}

/// How a task's limit is shown: `全部` for none, else the number.
pub open spec fn limit_text(limit: usize) -> Seq<char> {
    if limit == 0 {
        "全部"@
    } else {
        decimal_of_nat(limit as nat)
    }
}

/// The menu entry of a task: `SOURCE -> TARGET (限制: LIMIT, 过滤: FILTER)`.
pub open spec fn task_label_text(source: Seq<char>, target: Seq<char>, cfg: ChannelConfig) -> Seq<
    char,
> {
    source + " -> "@ + target + " (限制: "@ + limit_text(cfg.limit) + ", 过滤: "@ + filter_summary(cfg)
        + ")"@
}

/// Writes the menu entry of the task `cfg`, its peers named `source` and `target`.
pub fn task_label(source: &str, target: &str, cfg: &ChannelConfig) -> (r: String)
    ensures
        r@ == task_label_text(source@, target@, *cfg),
{
    let mut r = String::from_str(source);
    r.append(" -> ");
    r.append(target);
    r.append(" (限制: ");
    if cfg.limit == 0 {
        r.append("全部");
    } else {
        let n = string_of(&decimal_u64(cfg.limit as u64));
        r.append(n.as_str());
    }
    r.append(", 过滤: ");
    match &cfg.filter.reactions {
        Some(rf) => {
            r.append("reactions>=");
            let n = string_of(&decimal_i64(rf.min_specific_total as i64));
            r.append(n.as_str());
        },
        None => match &cfg.filter.comments {
            Some(c) => {
                r.append("comments>=");
                let n = string_of(&decimal_i64(c.min as i64));
                r.append(n.as_str());
            },
            None => r.append("无过滤"),
        },
    }
    r.append(")");
    r
}

/// The name under which a chosen channel enters a task: its username, or
/// else its numeric id.
pub fn channel_identifier(info: &ChannelInfo) -> (r: String)
    ensures
        r@ == match info.username {
            Some(u) => u@,
            None => decimal_of_int(info.id as int),
        },
{
    match &info.username {
        Some(u) => u.clone(),
        None => string_of(&decimal_i64(info.id)),
    }
}

/// The sum of two harvest results; `None` when a total leaves the `i64` range.
pub fn add_stats(a: HarvestStats, b: HarvestStats) -> (r: Option<HarvestStats>)
    ensures
        match r {
            Some(s) => s.total_scanned == a.total_scanned + b.total_scanned && s.total_forwarded
                == a.total_forwarded + b.total_forwarded && s.total_skipped == a.total_skipped
                + b.total_skipped,
            None => !(i64::MIN <= a.total_scanned + b.total_scanned <= i64::MAX
                && i64::MIN <= a.total_forwarded + b.total_forwarded <= i64::MAX && i64::MIN
                <= a.total_skipped + b.total_skipped <= i64::MAX),
        },
{
    let scanned = a.total_scanned.checked_add(b.total_scanned);
    let forwarded = a.total_forwarded.checked_add(b.total_forwarded);
    let skipped = a.total_skipped.checked_add(b.total_skipped);
    match (scanned, forwarded, skipped) {
        (Some(s), Some(f), Some(k)) => Some(
            HarvestStats { total_scanned: s, total_forwarded: f, total_skipped: k },
        ),
        _ => None,
    }
}

/// A channel chosen without a username enters its task under its numeric
/// id, and that identifier is later resolved by id (`peer_lookup`) to the
/// same channel id.
pub proof fn lemma_identifier_resolves_back(info: ChannelInfo)
    requires
        info.username is None,
    ensures
        parsed_i64(decimal_of_int(info.id as int)) == Some(info.id),
{
    lemma_decimal_round_trip(info.id as int);
}

} // verus!
