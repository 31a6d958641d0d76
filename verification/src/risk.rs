//! Risk of tools and the notices that go with it.

use vstd::prelude::*;
use crate::json::{Json, JsonView};
use crate::text::{concat, same};

verus! {

/// Risk category of a tool.
#[derive(Debug, Clone, Copy, PartialEq, Eq, Structural, PartialOrd, Ord)]
pub enum ToolRiskCategory {
    /// Reads only.
    ReadOnly,
    /// Writes files.
    FileWrite,
    /// Runs commands.
    ShellExec,
    /// Writes to a repository.
    GitWrite,
    /// Writes to a database.
    DatabaseWrite,
    /// Uses the network.
    NetworkCall,
    /// Destroys data.
    Destructive,
}

impl ToolRiskCategory {
    /// What the risk is.
    pub fn description(&self) -> (r: &'static str)
        ensures
            r@ == match self {
                ToolRiskCategory::ReadOnly => "Read-only — no risk"@,
                ToolRiskCategory::FileWrite => "File will be modified or overwritten"@,
                ToolRiskCategory::ShellExec => "Arbitrary command execution"@,
                ToolRiskCategory::GitWrite => "Repository state will be changed"@,
                ToolRiskCategory::DatabaseWrite => "Database will be modified"@,
                ToolRiskCategory::NetworkCall => "Data may be sent over the network"@,
                ToolRiskCategory::Destructive => "Irreversible operation — data loss possible"@,
            },
    {
        match self {
            ToolRiskCategory::ReadOnly => "Read-only — no risk",
            ToolRiskCategory::FileWrite => "File will be modified or overwritten",
            ToolRiskCategory::ShellExec => "Arbitrary command execution",
            ToolRiskCategory::GitWrite => "Repository state will be changed",
            ToolRiskCategory::DatabaseWrite => "Database will be modified",
            ToolRiskCategory::NetworkCall => "Data may be sent over the network",
            ToolRiskCategory::Destructive => "Irreversible operation — data loss possible",
        }
    }

    /// How high the risk is: from 0 for none to 3.
    pub open spec fn height(&self) -> int {
        match self {
            ToolRiskCategory::ReadOnly => 0,
            ToolRiskCategory::NetworkCall => 1,
            ToolRiskCategory::FileWrite => 2,
            ToolRiskCategory::GitWrite => 2,
            ToolRiskCategory::DatabaseWrite => 2,
            ToolRiskCategory::ShellExec => 3,
            ToolRiskCategory::Destructive => 3,
        }
    }

    /// How high the risk is: from 0 for none to 3.
    pub fn level(&self) -> (r: u8)
        ensures
            r == self.height(),
    {
        match self {
            ToolRiskCategory::ReadOnly => 0,
            ToolRiskCategory::NetworkCall => 1,
            ToolRiskCategory::FileWrite => 2,
            ToolRiskCategory::GitWrite => 2,
            ToolRiskCategory::DatabaseWrite => 2,
            ToolRiskCategory::ShellExec => 3,
            ToolRiskCategory::Destructive => 3,
        }
    }

    /// The permission that the tool needs, as it is shown.
    pub fn permission_label(&self) -> (r: &'static str)
        ensures
            r@ == match self {
                ToolRiskCategory::ReadOnly => "Read"@,
                ToolRiskCategory::FileWrite => "Edit"@,
                ToolRiskCategory::ShellExec => "Execute"@,
                ToolRiskCategory::GitWrite => "Git"@,
                ToolRiskCategory::DatabaseWrite => "Database"@,
                ToolRiskCategory::NetworkCall => "Network"@,
                ToolRiskCategory::Destructive => "Delete"@,
            },
    {
        match self {
            ToolRiskCategory::ReadOnly => "Read",
            ToolRiskCategory::FileWrite => "Edit",
            ToolRiskCategory::ShellExec => "Execute",
            ToolRiskCategory::GitWrite => "Git",
            ToolRiskCategory::DatabaseWrite => "Database",
            ToolRiskCategory::NetworkCall => "Network",
            ToolRiskCategory::Destructive => "Delete",
        }
    }
}

/// The risk category of a tool by its name; a tool that is not known counts as reading only.
pub open spec fn category_of(tool: Seq<char>) -> ToolRiskCategory {
    if tool == "edit_file"@ || tool == "write_file"@ || tool == "append_file"@ || tool
        == "create_file"@ || tool == "update_file"@ || tool == "move_file"@ {
        ToolRiskCategory::FileWrite
    } else if tool == "shell"@ || tool == "execute"@ {
        ToolRiskCategory::ShellExec
    } else if tool == "git_commit"@ || tool == "git_add"@ || tool == "git_push"@ || tool
        == "git_tag"@ {
        ToolRiskCategory::GitWrite
    } else if tool == "db_query"@ || tool == "db_execute"@ || tool == "sql"@ {
        ToolRiskCategory::DatabaseWrite
    } else if tool == "web_fetch"@ || tool == "web_search"@ || tool == "http_request"@ || tool
        == "api_call"@ {
        ToolRiskCategory::NetworkCall
    } else if tool == "delete_file"@ || tool == "rm"@ || tool == "drop_table"@ || tool
        == "truncate"@ {
        ToolRiskCategory::Destructive
    } else {
        ToolRiskCategory::ReadOnly
    }
}

/// The path that a notice speaks of.
pub open spec fn notice_path(params: JsonView) -> Seq<char> {
    let v = match params.field("path"@) {
        Some(v) => Some(v),
        None => params.field("file_path"@),
    };
    match v {
        Some(v) => match v.text() {
            Some(s) => s,
            None => "unknown"@,
        },
        None => "unknown"@,
    }
}

/// The command that a notice speaks of.
pub open spec fn notice_command(params: JsonView) -> Seq<char> {
    match params.text_field("command"@) {
        Some(s) => s,
        None => Seq::empty(),
    }
}

/// The notice for a call of a tool; nothing is said about tools that only read.
pub open spec fn notice(tool: Seq<char>, params: JsonView) -> Seq<char> {
    match category_of(tool) {
        ToolRiskCategory::ReadOnly => Seq::empty(),
        ToolRiskCategory::FileWrite => "Editing "@ + notice_path(params)
            + " — risk: file will be modified"@,
        ToolRiskCategory::ShellExec => "Running: "@ + notice_command(params)
            + " — risk: arbitrary command execution"@,
        ToolRiskCategory::GitWrite => "Git write to repository — risk: repository state change"@,
        ToolRiskCategory::DatabaseWrite => "Database modification — risk: data corruption"@,
        ToolRiskCategory::NetworkCall => "Network request — risk: data may leave this machine"@,
        ToolRiskCategory::Destructive => "DELETING "@ + notice_path(params)
            + " — risk: irreversible data loss"@,
    }
}

/// Classifies tools by their risk.
pub struct ToolRiskClassifier;

impl ToolRiskClassifier {
    /// The risk category of a tool by its name.
    pub fn classify(tool_name: &str) -> (r: ToolRiskCategory)
        ensures
            r == category_of(tool_name@),
    {
        if same(tool_name, "edit_file") || same(tool_name, "write_file") || same(
            tool_name,
            "append_file",
        ) || same(tool_name, "create_file") || same(tool_name, "update_file") || same(
            tool_name,
            "move_file",
        ) {
            ToolRiskCategory::FileWrite
        } else if same(tool_name, "shell") || same(tool_name, "execute") {
            ToolRiskCategory::ShellExec
        } else if same(tool_name, "git_commit") || same(tool_name, "git_add") || same(
            tool_name,
            "git_push",
        ) || same(tool_name, "git_tag") {
            ToolRiskCategory::GitWrite
        } else if same(tool_name, "db_query") || same(tool_name, "db_execute") || same(
            tool_name,
            "sql",
        ) {
            ToolRiskCategory::DatabaseWrite
        } else if same(tool_name, "web_fetch") || same(tool_name, "web_search") || same(
            tool_name,
            "http_request",
        ) || same(tool_name, "api_call") {
            ToolRiskCategory::NetworkCall
        } else if same(tool_name, "delete_file") || same(tool_name, "rm") || same(
            tool_name,
            "drop_table",
        ) || same(tool_name, "truncate") {
            ToolRiskCategory::Destructive
        } else {
            ToolRiskCategory::ReadOnly
        }
    }

    /// The notice for a call of a tool.
    pub fn safety_notice(tool_name: &str, params: &Json) -> (r: String)
        ensures
            r@ == notice(tool_name@, params@),
    {
        let path_value = match params.get("path") {
            Some(v) => Some(v),
            None => params.get("file_path"),
        };
        let path = match path_value {
            Some(v) => match v.as_str() {
                Some(s) => s.to_owned(),
                None => "unknown".to_owned(),
            },
            None => "unknown".to_owned(),
        };
        let command = match params.get_str("command") {
            Some(s) => s,
            None => String::new(),
        };
        match ToolRiskClassifier::classify(tool_name) {
            ToolRiskCategory::ReadOnly => String::new(),
            ToolRiskCategory::FileWrite => {
                let r = concat("Editing ", path.as_str());
                concat(r.as_str(), " — risk: file will be modified")
            },
            ToolRiskCategory::ShellExec => {
                let r = concat("Running: ", command.as_str());
                concat(r.as_str(), " — risk: arbitrary command execution")
            },
            ToolRiskCategory::GitWrite => {
                "Git write to repository — risk: repository state change".to_owned()
            },
            ToolRiskCategory::DatabaseWrite => {
                "Database modification — risk: data corruption".to_owned()
            },
            ToolRiskCategory::NetworkCall => {
                "Network request — risk: data may leave this machine".to_owned()
            },
            ToolRiskCategory::Destructive => {
                let r = concat("DELETING ", path.as_str());
                concat(r.as_str(), " — risk: irreversible data loss")
            },
        }
    }
}

/// A notice is given exactly for the tools that are not without risk.
pub proof fn law_notice_only_for_risks(tool: Seq<char>, params: JsonView)
    ensures
        notice(tool, params).len() == 0 <==> category_of(tool).height() == 0,
{
    reveal_strlit("Editing ");
    reveal_strlit("Running: ");
    reveal_strlit("DELETING ");
    reveal_strlit("Git write to repository — risk: repository state change");
    reveal_strlit("Database modification — risk: data corruption");
    reveal_strlit("Network request — risk: data may leave this machine");
}

/// What only reads has no risk; a request to the network has less than a change of files, of a
/// repository or of a database; and what runs commands or destroys has the most.
pub proof fn law_risks_are_ordered()
    ensures
        ToolRiskCategory::ReadOnly.height() == 0,
        ToolRiskCategory::ReadOnly.height() < ToolRiskCategory::NetworkCall.height()
            < ToolRiskCategory::FileWrite.height(),
        ToolRiskCategory::FileWrite.height() == ToolRiskCategory::GitWrite.height()
            == ToolRiskCategory::DatabaseWrite.height(),
        ToolRiskCategory::DatabaseWrite.height() < ToolRiskCategory::ShellExec.height(),
        ToolRiskCategory::ShellExec.height() == ToolRiskCategory::Destructive.height(),
{
}

} // verus!
