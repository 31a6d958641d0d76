//! Plugins: where they are installed, what they bring, and the variables in their files.

use vstd::prelude::*;
use crate::paths::{join_path, joined_path};
use crate::prompt_exec::{
    body_of, filled_parts, lemma_fill_parts, lemma_filled_plain, plain_parts, written, BodyPart,
};
use crate::table::{in_order, law_names_are_listed_in_order, Table};
use crate::text::{
    add_to, chars_of, concat, ends_with, lower_ascii, lowered, no_strings, pairs, replace,
    replaced, same, starts_with, string_of, strs, to_upper, upper_text,
};

verus! {

// ── Scopes and sources ──────────────────────────────────────────────────────────────────────

/// Where a plugin is installed, and who can use it.
#[derive(Debug, Clone, Copy, PartialEq, Eq, Structural)]
pub enum PluginScope {
    /// For the user, in all projects.
    User,
    /// For everyone who works on the project.
    Project,
    /// For the user, in one project.
    Local,
}

/// The project directory, or the current one.
pub open spec fn root_or_current(root: Option<&str>) -> Seq<char> {
    match root {
        Some(r) => r@,
        None => "."@,
    }
}

impl PluginScope {
    /// The directory of the scope.
    pub open spec fn directory(&self, agent_dir: Seq<char>, root: Option<&str>) -> Seq<char> {
        match self {
            PluginScope::User => joined_path(agent_dir, "plugins"@),
            PluginScope::Project => joined_path(
                joined_path(root_or_current(root), ".echo-agent"@),
                "plugins"@,
            ),
            PluginScope::Local => joined_path(
                joined_path(root_or_current(root), ".echo-agent"@),
                "plugins.local"@,
            ),
        }
    }

    /// The directory of the scope, given that of the agent and that of the project.
    pub fn resolve_dir(&self, agent_dir: &str, project_root: Option<&str>) -> (r: String)
        ensures
            r@ == self.directory(agent_dir@, project_root),
    {
        let root = match project_root {
            Some(r) => r,
            None => ".",
        };
        match self {
            PluginScope::User => join_path(agent_dir, "plugins"),
            PluginScope::Project => join_path(join_path(root, ".echo-agent").as_str(), "plugins"),
            PluginScope::Local => join_path(
                join_path(root, ".echo-agent").as_str(),
                "plugins.local",
            ),
        }
    }

    /// All scopes, in the order in which they are searched.
    pub fn all() -> (r: Vec<PluginScope>)
        ensures
            r@ == seq![PluginScope::User, PluginScope::Project, PluginScope::Local],
    {
        vec![PluginScope::User, PluginScope::Project, PluginScope::Local]
    }

    /// The scope with a name or its first letter, in any case.
    pub fn from_arg(s: &str) -> (r: Option<PluginScope>)
        ensures
            r == {
                let t = lower_ascii(s@);
                if t == "user"@ || t == "u"@ {
                    Some(PluginScope::User)
                } else if t == "project"@ || t == "p"@ {
                    Some(PluginScope::Project)
                } else if t == "local"@ || t == "l"@ {
                    Some(PluginScope::Local)
                } else {
                    None
                }
            },
    {
        let low = lowered(s);
        let t = low.as_str();
        if same(t, "user") || same(t, "u") {
            Some(PluginScope::User)
        } else if same(t, "project") || same(t, "p") {
            Some(PluginScope::Project)
        } else if same(t, "local") || same(t, "l") {
            Some(PluginScope::Local)
        } else {
            None
        }
    }

    /// The name of the scope.
    pub fn as_str(&self) -> (r: &'static str)
        ensures
            r@ == match self {
                PluginScope::User => "user"@,
                PluginScope::Project => "project"@,
                PluginScope::Local => "local"@,
            },
    {
        match self {
            PluginScope::User => "user",
            PluginScope::Project => "project",
            PluginScope::Local => "local",
        }
    }
}

/// Where a plugin is installed from.
pub enum InstallSource {
    /// A directory.
    Local(String),
    /// A repository, and a directory within it.
    Git { url: String, subdir: Option<String> },
}

/// Whether a source is the address of a repository.
pub open spec fn looks_like_repository(s: Seq<char>) -> bool {
    "http://"@.is_prefix_of(s) || "https://"@.is_prefix_of(s) || "git://"@.is_prefix_of(s)
        || "git@"@.is_prefix_of(s) || ".git"@.is_suffix_of(s)
}

impl InstallSource {
    /// Reads a source: the address of a repository, or a directory.
    pub fn parse(s: &str) -> (r: InstallSource)
        ensures
            match r {
                InstallSource::Git { url, subdir } => looks_like_repository(s@) && url@ == s@
                    && subdir is None,
                InstallSource::Local(p) => !looks_like_repository(s@) && p@ == s@,
            },
    {
        if starts_with(s, "http://") || starts_with(s, "https://") || starts_with(s, "git://")
            || starts_with(s, "git@") || ends_with(s, ".git") {
            InstallSource::Git { url: s.to_owned(), subdir: None }
        } else {
            InstallSource::Local(s.to_owned())
        }
    }

    /// Whether the source is a repository.
    pub fn is_git(&self) -> (r: bool)
        ensures
            r == (self is Git),
    {
        match self {
            InstallSource::Git { url, subdir } => true,
            InstallSource::Local(_) => false,
        }
    }

    /// The source as text.
    pub fn text(&self) -> (r: String)
        ensures
            r@ == match self {
                InstallSource::Local(p) => p@,
                InstallSource::Git { url, subdir } => match subdir {
                    Some(d) => url@ + ":"@ + d@,
                    None => url@,
                },
            },
    {
        match self {
            InstallSource::Local(p) => p.clone(),
            InstallSource::Git { url, subdir } => match subdir {
                Some(d) => {
                    let mut t = concat(url.as_str(), ":");
                    t.push_str(d.as_str());
                    t
                },
                None => url.clone(),
            },
        }
    }
}

// ── Manifest ────────────────────────────────────────────────────────────────────────────────

/// A plugin that another one needs.
pub struct PluginDependency {
    pub name: String,
    pub version: Option<String>,
}

/// The paths of what a plugin brings; nothing where the manifest does not say.
pub struct PluginComponents {
    pub skills: Option<Vec<String>>,
    pub agents: Option<Vec<String>>,
    pub hooks: Option<Vec<String>>,
    pub mcp_servers: Option<Vec<String>>,
    pub lsp_servers: Option<Vec<String>>,
    pub monitors: Option<Vec<String>>,
    pub themes: Option<Vec<String>>,
    pub output_styles: Option<Vec<String>>,
}

impl Default for PluginComponents {
    fn default() -> (r: PluginComponents)
        ensures
            r.skills is None,
            r.agents is None,
            r.hooks is None,
            r.mcp_servers is None,
            r.lsp_servers is None,
            r.monitors is None,
            r.themes is None,
            r.output_styles is None,
    {
        PluginComponents {
            skills: None,
            agents: None,
            hooks: None,
            mcp_servers: None,
            lsp_servers: None,
            monitors: None,
            themes: None,
            output_styles: None,
        }
    }
}

/// What a plugin says of itself.
pub struct PluginManifest {
    pub name: String,
    pub version: String,
    pub description: String,
    pub keywords: Vec<String>,
    pub dependencies: Vec<PluginDependency>,
    pub components: PluginComponents,
}

/// The names of the plugins that a manifest asks for.
pub open spec fn dependency_names(deps: Seq<PluginDependency>) -> Seq<Seq<char>> {
    deps.map_values(|d: PluginDependency| d.name@)
}

// ── Variables ───────────────────────────────────────────────────────────────────────────────

/// The variables in the files of a plugin.
pub struct PluginVariables {
    /// Directory of the plugin.
    pub plugin_root: String,
    /// Directory for the data of the plugin.
    pub plugin_data: String,
    /// Directory of the project.
    pub project_dir: String,
    /// Settings of the user.
    pub user_config: Table<String>,
}

/// Whether a character may stand in the name of a data directory.
pub open spec fn plain_char(c: char) -> bool {
    ('a' <= c && c <= 'z') || ('A' <= c && c <= 'Z') || ('0' <= c && c <= '9') || c == '-' || c
        == '_'
}

/// A name with a hyphen in place of every character that may not stand in a data directory.
pub open spec fn sanitized(name: Seq<char>) -> Seq<char> {
    name.map_values(
        |c: char|
            if plain_char(c) {
                c
            } else {
                '-'
            },
    )
}

/// A name with a hyphen in place of every character that may not stand in a data directory.
pub fn sanitize(name: &str) -> (r: String)
    ensures
        r@ == sanitized(name@),
{
    let v = chars_of(name);
    let mut out = String::new();
    let mut i: usize = 0;
    while i < v.len()
        invariant
            v@ == name@,
            i <= v.len(),
            out@ == sanitized(name@).take(i as int),
        decreases v.len() - i,
    {
        let c = v[i];
        let plain = ('a' <= c && c <= 'z') || ('A' <= c && c <= 'Z') || ('0' <= c && c <= '9') || c
            == '-' || c == '_';
        let ghost before = out@;
        out.push(
            if plain {
                c
            } else {
                '-'
            },
        );
        assert(out@ =~= sanitized(name@).take(i + 1));
        i = i + 1;
    }
    assert(sanitized(name@).take(name@.len() as int) =~= sanitized(name@));
    out
}

/// The text with the settings of the user filled in, one name after the other.
pub open spec fn with_settings(
    s: Seq<char>,
    config: Map<Seq<char>, String>,
    names: Seq<Seq<char>>,
) -> Seq<char>
    decreases names.len(),
{
    if names.len() == 0 {
        s
    } else {
        replace(
            with_settings(s, config, names.drop_last()),
            "${user_config."@ + names.last() + "}"@,
            config[names.last()]@,
        )
    }
}

/// The position of the first closing brace at or behind `from`.
pub open spec fn brace_from(s: Seq<char>, from: int) -> Option<int>
    decreases s.len() - from,
{
    if from < 0 || from >= s.len() {
        None
    } else if s[from] == '}' {
        Some(from)
    } else {
        brace_from(s, from + 1)
    }
}

/// Whether a variable belongs to the plugin itself, not to the environment.
pub open spec fn reserved(name: Seq<char>) -> bool {
    "ECHO_"@.is_prefix_of(name) || "user_config."@.is_prefix_of(name)
}

/// What stands for a variable: its value in the environment, or the variable as it was written.
pub open spec fn env_value(name: Seq<char>, env: Map<Seq<char>, String>) -> Seq<char> {
    if !reserved(name) && env.contains_key(name) {
        env[name]@
    } else {
        "${"@ + name + "}"@
    }
}

/// The text at and behind `from` with the variables of the environment filled in. A variable that
/// is left open ends the text as it stands.
pub open spec fn env_filled(s: Seq<char>, from: int, env: Map<Seq<char>, String>) -> Seq<char>
    decreases s.len() - from,
{
    if from < 0 || from >= s.len() {
        Seq::empty()
    } else if s[from] == '$' && from + 1 < s.len() && s[from + 1] == '{' {
        match brace_from(s, from + 2) {
            Some(j) => if from < j < s.len() {
                env_value(s.subrange(from + 2, j), env) + env_filled(s, j + 1, env)
            } else {
                Seq::empty()
            },
            None => s.subrange(from, s.len() as int),
        }
    } else {
        seq![s[from]] + env_filled(s, from + 1, env)
    }
}

/// The variables of the environment that a text at and behind `from` names.
pub open spec fn env_wanted(s: Seq<char>, from: int) -> Seq<Seq<char>>
    decreases s.len() - from,
{
    if from < 0 || from >= s.len() {
        Seq::empty()
    } else if s[from] == '$' && from + 1 < s.len() && s[from + 1] == '{' {
        match brace_from(s, from + 2) {
            Some(j) => {
                let name = s.subrange(from + 2, j);
                let rest = if from < j < s.len() {
                    env_wanted(s, j + 1)
                } else {
                    Seq::empty()
                };
                if reserved(name) {
                    rest
                } else {
                    seq![name] + rest
                }
            },
            None => Seq::empty(),
        }
    } else {
        env_wanted(s, from + 1)
    }
}

fn find_brace(v: &Vec<char>, from: usize) -> (r: Option<usize>)
    ensures
        match r {
            Some(j) => brace_from(v@, from as int) == Some(j as int) && from <= j < v.len(),
            None => brace_from(v@, from as int) is None,
        },
{
    let mut i: usize = from;
    while i < v.len()
        invariant
            from <= i,
            brace_from(v@, from as int) == brace_from(v@, i as int),
        decreases v.len() - i,
    {
        if v[i] == '}' {
            return Some(i);
        }
        i = i + 1;
    }
    None
}

/// The variables of the environment that a text names, in order.
pub fn wanted_env_vars(input: &str) -> (r: Vec<String>)
    ensures
        strs(r@) == env_wanted(input@, 0),
{
    let v = chars_of(input);
    let mut out = no_strings();
    let mut i: usize = 0;
    assert(strs(out@) + env_wanted(input@, 0) =~= env_wanted(input@, 0));
    while i < v.len()
        invariant
            v@ == input@,
            i <= v.len(),
            env_wanted(input@, 0) == strs(out@) + env_wanted(input@, i as int),
        decreases v.len() - i,
    {
        let ghost before = strs(out@);
        if v[i] == '$' && i < v.len() - 1 && v[i + 1] == '{' {
            match find_brace(&v, i + 2) {
                Some(j) => {
                    let name = string_of(&v, i + 2, j);
                    if !starts_with(name.as_str(), "ECHO_") && !starts_with(
                        name.as_str(),
                        "user_config.",
                    ) {
                        add_to(&mut out, name.as_str());
                        assert(before + (seq![name@] + env_wanted(input@, j + 1)) =~= strs(out@)
                            + env_wanted(input@, j + 1));
                    }
                    i = j + 1;
                },
                None => {
                    assert(before + Seq::<Seq<char>>::empty() =~= before);
                    return out;
                },
            }
        } else {
            i = i + 1;
        }
    }
    assert(strs(out@) + Seq::<Seq<char>>::empty() =~= strs(out@));
    out
}

/// The text with the variables of the environment filled in; those that are not set stay.
pub fn substitute_env_vars(input: &str, env: &Table<String>) -> (r: String)
    ensures
        r@ == env_filled(input@, 0, env@),
{
    let v = chars_of(input);
    let mut out = String::new();
    let mut i: usize = 0;
    assert(out@ + env_filled(input@, 0, env@) =~= env_filled(input@, 0, env@));
    while i < v.len()
        invariant
            v@ == input@,
            i <= v.len(),
            env_filled(input@, 0, env@) == out@ + env_filled(input@, i as int, env@),
        decreases v.len() - i,
    {
        let ghost before = out@;
        if v[i] == '$' && i < v.len() - 1 && v[i + 1] == '{' {
            match find_brace(&v, i + 2) {
                Some(j) => {
                    let name = string_of(&v, i + 2, j);
                    let own = starts_with(name.as_str(), "ECHO_") || starts_with(
                        name.as_str(),
                        "user_config.",
                    );
                    let value = if own {
                        None
                    } else {
                        env.get(name.as_str())
                    };
                    let text = match value {
                        Some(t) => t.clone(),
                        None => {
                            let mut t = concat("${", name.as_str());
                            t.push_str("}");
                            t
                        },
                    };
                    assert(text@ == env_value(name@, env@));
                    out.push_str(text.as_str());
                    assert(before + (text@ + env_filled(input@, j + 1, env@)) =~= out@
                        + env_filled(input@, j + 1, env@));
                    i = j + 1;
                },
                None => {
                    let rest = string_of(&v, i, v.len());
                    out.push_str(rest.as_str());
                    return out;
                },
            }
        } else {
            out.push(v[i]);
            assert(before + (seq![v@[i as int]] + env_filled(input@, i + 1, env@)) =~= out@
                + env_filled(input@, i + 1, env@));
            i = i + 1;
        }
    }
    assert(out@ + Seq::<char>::empty() =~= out@);
    out
}

/// The path below the directory of a plugin that a manifest names.
pub open spec fn below(root: Seq<char>, relative: Seq<char>) -> Seq<char> {
    joined_path(
        root,
        if "./"@.is_prefix_of(relative) {
            relative.subrange(2, relative.len() as int)
        } else {
            relative
        },
    )
}

/// The path below the directory of a plugin that a manifest names.
pub fn resolve_plugin_path(root: &str, relative: &str) -> (r: String)
    ensures
        r@ == below(root@, relative@),
{
    if starts_with(relative, "./") {
        proof {
            reveal_strlit("./");
        }
        let v = chars_of(relative);
        let rest = string_of(&v, 2, v.len());
        join_path(root, rest.as_str())
    } else {
        join_path(root, relative)
    }
}

/// The directory for the data of a plugin, below that of the agent.
pub open spec fn data_directory(agent_dir: Seq<char>, name: Seq<char>) -> Seq<char> {
    joined_path(joined_path(joined_path(agent_dir, "plugins"@), "data"@), sanitized(name))
}

/// Whether a name may be that of an environment variable.
pub open spec fn variable_name(s: Seq<char>) -> bool {
    forall|i: int| 0 <= i < s.len() ==> variable_char(#[trigger] s[i])
}

/// Whether a character may stand in the name of an environment variable.
pub open spec fn variable_char(c: char) -> bool {
    ('A' <= c && c <= 'Z') || ('0' <= c && c <= '9') || c == '_'
}

/// The environment variables for the settings of the user. A setting whose name in upper case is no
/// name of a variable is left out.
pub open spec fn setting_exports(
    config: Map<Seq<char>, String>,
    names: Seq<Seq<char>>,
) -> Seq<(Seq<char>, Seq<char>)>
    decreases names.len(),
{
    if names.len() == 0 {
        Seq::empty()
    } else {
        let before = setting_exports(config, names.drop_last());
        let up = upper_text(names.last());
        if variable_name(up) {
            before.push(("ECHO_PLUGIN_OPTION_"@ + up, config[names.last()]@))
        } else {
            before
        }
    }
}

/// Whether a name may be that of an environment variable.
pub fn is_variable_name(s: &str) -> (r: bool)
    ensures
        r == variable_name(s@),
{
    let v = chars_of(s);
    let mut i: usize = 0;
    while i < v.len()
        invariant
            v@ == s@,
            i <= v.len(),
            forall|k: int| 0 <= k < i ==> variable_char(#[trigger] s@[k]),
        decreases v.len() - i,
    {
        let c = v[i];
        if !(('A' <= c && c <= 'Z') || ('0' <= c && c <= '9') || c == '_') {
            assert(!variable_char(s@[i as int]));
            return false;
        }
        i = i + 1;
    }
    true
}

impl PluginVariables {
    /// The variables of a plugin, without settings of the user.
    pub fn new(plugin_name: &str, plugin_root: &str, project_dir: &str, agent_dir: &str) -> (r:
        PluginVariables)
        ensures
            r.plugin_root@ == plugin_root@,
            r.plugin_data@ == data_directory(agent_dir@, plugin_name@),
            r.project_dir@ == project_dir@,
            r.user_config@ == Map::<Seq<char>, String>::empty(),
    {
        PluginVariables {
            plugin_root: plugin_root.to_owned(),
            plugin_data: PluginVariables::data_dir_for(plugin_name, agent_dir),
            project_dir: project_dir.to_owned(),
            user_config: Table::new(),
        }
    }

    /// The variables with settings of the user.
    pub fn with_user_config(self, config: Table<String>) -> (r: PluginVariables)
        ensures
            r == (PluginVariables { user_config: config, ..self }),
    {
        let mut r = self;
        r.user_config = config;
        r
    }

    /// The directory for the data of a plugin.
    pub fn data_dir_for(plugin_name: &str, agent_dir: &str) -> (r: String)
        ensures
            r@ == data_directory(agent_dir@, plugin_name@),
    {
        let plugins = join_path(agent_dir, "plugins");
        let data = join_path(plugins.as_str(), "data");
        join_path(data.as_str(), sanitize(plugin_name).as_str())
    }

    /// The text with the variables of the plugin and the settings of the user filled in.
    pub open spec fn own_filled(&self, s: Seq<char>) -> Seq<char> {
        let a = replace(s, "${ECHO_PLUGIN_ROOT}"@, self.plugin_root@);
        let b = replace(a, "${ECHO_PLUGIN_DATA}"@, self.plugin_data@);
        let c = replace(b, "${ECHO_PROJECT_DIR}"@, self.project_dir@);
        with_settings(c, self.user_config@, in_order(self.user_config@.dom()))
    }

    /// The text with the variables of the plugin and the settings of the user filled in.
    pub fn substitute_own(&self, input: &str) -> (r: String)
        ensures
            r@ == self.own_filled(input@),
    {
        proof {
            reveal_strlit("${ECHO_PLUGIN_ROOT}");
            reveal_strlit("${ECHO_PLUGIN_DATA}");
            reveal_strlit("${ECHO_PROJECT_DIR}");
            reveal_strlit("${user_config.");
        }
        let a = replaced(input, "${ECHO_PLUGIN_ROOT}", self.plugin_root.as_str());
        let b = replaced(a.as_str(), "${ECHO_PLUGIN_DATA}", self.plugin_data.as_str());
        let c = replaced(b.as_str(), "${ECHO_PROJECT_DIR}", self.project_dir.as_str());
        let names = self.user_config.sorted_keys();
        let ghost all = in_order(self.user_config@.dom());
        let ghost start = c@;
        let mut out = c;
        let mut i: usize = 0;
        assert(all.take(0) =~= Seq::<Seq<char>>::empty());
        while i < names.len()
            invariant
                "${user_config."@.len() > 0,
                all == strs(names@),
                all.to_set() == self.user_config@.dom(),
                i <= names.len(),
                out@ == with_settings(start, self.user_config@, all.take(i as int)),
            decreases names.len() - i,
        {
            assert(all[i as int] == names@[i as int]@);
            assert(all.to_set().contains(all[i as int]));
            assert(all.take(i + 1).drop_last() =~= all.take(i as int));
            if let Some(value) = self.user_config.get(names[i].as_str()) {
                let mut mark = concat("${user_config.", names[i].as_str());
                mark.push_str("}");
                out = replaced(out.as_str(), mark.as_str(), value.as_str());
            }
            i = i + 1;
        }
        assert(all.take(all.len() as int) =~= all);
        out
    }

    /// The text with all variables filled in: those of the plugin, the settings of the user, and
    /// then those of the environment.
    pub fn substitute(&self, input: &str, env: &Table<String>) -> (r: String)
        ensures
            r@ == env_filled(self.own_filled(input@), 0, env@),
    {
        let own = self.substitute_own(input);
        substitute_env_vars(own.as_str(), env)
    }

    /// The path below the directory of the plugin.
    pub fn resolve_path(&self, relative: &str) -> (r: String)
        ensures
            r@ == below(self.plugin_root@, relative@),
    {
        resolve_plugin_path(self.plugin_root.as_str(), relative)
    }

    /// The environment variables for the processes of the plugin.
    pub fn exports(&self) -> (r: Vec<(String, String)>)
        ensures
            pairs(r@) == seq![
                ("ECHO_PLUGIN_ROOT"@, self.plugin_root@),
                ("ECHO_PLUGIN_DATA"@, self.plugin_data@),
                ("ECHO_PROJECT_DIR"@, self.project_dir@),
            ] + setting_exports(self.user_config@, in_order(self.user_config@.dom())),
    {
        let mut out: Vec<(String, String)> = Vec::new();
        out.push(("ECHO_PLUGIN_ROOT".to_owned(), self.plugin_root.clone()));
        out.push(("ECHO_PLUGIN_DATA".to_owned(), self.plugin_data.clone()));
        out.push(("ECHO_PROJECT_DIR".to_owned(), self.project_dir.clone()));
        let ghost first = seq![
            ("ECHO_PLUGIN_ROOT"@, self.plugin_root@),
            ("ECHO_PLUGIN_DATA"@, self.plugin_data@),
            ("ECHO_PROJECT_DIR"@, self.project_dir@),
        ];
        assert(pairs(out@) =~= first);
        let names = self.user_config.sorted_keys();
        let ghost all = in_order(self.user_config@.dom());
        let mut i: usize = 0;
        assert(all.take(0) =~= Seq::<Seq<char>>::empty());
        assert(first + setting_exports(self.user_config@, all.take(0)) =~= first);
        while i < names.len()
            invariant
                all == strs(names@),
                all.to_set() == self.user_config@.dom(),
                i <= names.len(),
                pairs(out@) == first + setting_exports(self.user_config@, all.take(i as int)),
            decreases names.len() - i,
        {
            assert(all[i as int] == names@[i as int]@);
            assert(all.to_set().contains(all[i as int]));
            assert(all.take(i + 1).drop_last() =~= all.take(i as int));
            if let Some(value) = self.user_config.get(names[i].as_str()) {
                let up = to_upper(names[i].as_str());
                if is_variable_name(up.as_str()) {
                    let ghost before = out@;
                    let name = concat("ECHO_PLUGIN_OPTION_", up.as_str());
                    let ghost name_text = name@;
                    out.push((name, value.clone()));
                    assert(pairs(out@) =~= pairs(before).push((name_text, value@)));
                    assert(pairs(out@) =~= first + setting_exports(
                        self.user_config@,
                        all.take(i + 1),
                    ));
                }
            }
            i = i + 1;
        }
        assert(all.take(all.len() as int) =~= all);
        out
    }
}

// ── Laws ────────────────────────────────────────────────────────────────────────────────────

/// The name of a data directory holds no separator and no period, so that it stays below the
/// directory it is put in.
pub proof fn law_data_names_are_plain(name: Seq<char>)
    ensures
        sanitized(name).len() == name.len(),
        forall|i: int| 0 <= i < name.len() ==> plain_char(#[trigger] sanitized(name)[i]),
        !sanitized(name).contains('/'),
        !sanitized(name).contains('.'),
{
}

/// A text that names no variable stays as it is.
pub proof fn law_text_without_variables_stays(
    s: Seq<char>,
    from: int,
    env: Map<Seq<char>, String>,
)
    requires
        0 <= from <= s.len(),
        forall|i: int| from <= i < s.len() ==> #[trigger] s[i] != '$',
    ensures
        env_filled(s, from, env) == s.subrange(from, s.len() as int),
    decreases s.len() - from,
{
    if from < s.len() {
        law_text_without_variables_stays(s, from + 1, env);
        assert(seq![s[from]] + s.subrange(from + 1, s.len() as int) =~= s.subrange(
            from,
            s.len() as int,
        ));
    } else {
        assert(s.subrange(from, s.len() as int) =~= Seq::<char>::empty());
    }
}

/// Variables that the environment does not set are left as they are.
pub proof fn law_unknown_variables_stay(s: Seq<char>, from: int)
    requires
        0 <= from <= s.len(),
    ensures
        env_filled(s, from, Map::empty()) == s.subrange(from, s.len() as int),
    decreases s.len() - from,
{
    let env = Map::<Seq<char>, String>::empty();
    reveal_strlit("${");
    reveal_strlit("}");
    if from < s.len() {
        if s[from] == '$' && from + 1 < s.len() && s[from + 1] == '{' {
            lemma_brace(s, from + 2);
            if let Some(j) = brace_from(s, from + 2) {
                law_unknown_variables_stay(s, j + 1);
                let name = s.subrange(from + 2, j);
                assert("${"@ + name + "}"@ + s.subrange(j + 1, s.len() as int) =~= s.subrange(
                    from,
                    s.len() as int,
                ));
            }
        } else {
            law_unknown_variables_stay(s, from + 1);
            assert(seq![s[from]] + s.subrange(from + 1, s.len() as int) =~= s.subrange(
                from,
                s.len() as int,
            ));
        }
    } else {
        assert(s.subrange(from, s.len() as int) =~= Seq::<char>::empty());
    }
}

proof fn lemma_brace(s: Seq<char>, from: int)
    requires
        0 <= from,
    ensures
        brace_from(s, from) matches Some(j) ==> from <= j < s.len() && s[j] == '}',
    decreases s.len() - from,
{
    if from < s.len() && s[from] != '}' {
        lemma_brace(s, from + 1);
    }
}

proof fn lemma_env_behind(s: Seq<char>, k: int, from: int, env: Map<Seq<char>, String>)
    requires
        0 <= k <= from,
        k <= s.len(),
    ensures
        env_filled(s.subrange(k, s.len() as int), from - k, env) == env_filled(s, from, env),
    decreases s.len() - from,
{
    let t = s.subrange(k, s.len() as int);
    if from < s.len() {
        if s[from] == '$' && from + 1 < s.len() && s[from + 1] == '{' {
            lemma_brace_behind(s, k, from + 2);
            lemma_brace(s, from + 2);
            match brace_from(s, from + 2) {
                Some(j) => {
                    assert(t.subrange(from - k + 2, j - k) =~= s.subrange(from + 2, j));
                    lemma_env_behind(s, k, j + 1, env);
                },
                None => {
                    assert(t.subrange(from - k, t.len() as int) =~= s.subrange(
                        from,
                        s.len() as int,
                    ));
                },
            }
        } else {
            lemma_env_behind(s, k, from + 1, env);
        }
    }
}

proof fn lemma_brace_behind(s: Seq<char>, k: int, from: int)
    requires
        0 <= k <= from,
        k <= s.len(),
    ensures
        brace_from(s.subrange(k, s.len() as int), from - k) == match brace_from(s, from) {
            Some(j) => Some(j - k),
            None => None,
        },
    decreases s.len() - from,
{
    if from < s.len() && s[from] != '}' {
        lemma_brace_behind(s, k, from + 1);
    }
}

proof fn lemma_first_brace(s: Seq<char>, from: int, j: int)
    requires
        0 <= from <= j < s.len(),
        s[j] == '}',
        forall|k: int| from <= k < j ==> s[k] != '}',
    ensures
        brace_from(s, from) == Some(j),
    decreases j - from,
{
    if from < j {
        lemma_first_brace(s, from + 1, j);
    }
}

proof fn lemma_env_text(a: Seq<char>, s: Seq<char>, i: int, env: Map<Seq<char>, String>)
    requires
        0 <= i <= a.len() <= s.len(),
        a == s.take(a.len() as int),
        !a.contains('$'),
    ensures
        env_filled(s, i, env) == a.subrange(i, a.len() as int) + env_filled(s, a.len() as int, env),
    decreases a.len() - i,
{
    let rest = env_filled(s, a.len() as int, env);
    if i < a.len() {
        assert(a.contains(a[i]));
        assert(a[i] == s[i]);
        lemma_env_text(a, s, i + 1, env);
        assert(seq![s[i]] + (a.subrange(i + 1, a.len() as int) + rest) =~= a.subrange(
            i,
            a.len() as int,
        ) + rest);
    } else {
        assert(a.subrange(i, a.len() as int) + rest =~= rest);
    }
}

/// A variable of the environment is replaced by its value in its place; one that is not set, and one
/// that belongs to the plugin, stays as it is written. The text before it stays, and the rest of the
/// text is filled in likewise.
pub proof fn law_environment_is_filled_in(
    text: Seq<char>,
    name: Seq<char>,
    rest: Seq<char>,
    env: Map<Seq<char>, String>,
)
    requires
        !text.contains('$'),
        !name.contains('}'),
    ensures
        env_filled(text + seq!['$', '{'] + name + seq!['}'] + rest, 0, env) == text + (
        if env.contains_key(name) && !"ECHO_"@.is_prefix_of(name) && !"user_config."@.is_prefix_of(
            name,
        ) {
            env[name]@
        } else {
            seq!['$', '{'] + name + seq!['}']
        }) + env_filled(rest, 0, env),
        env_wanted(text + seq!['$', '{'] + name + seq!['}'] + rest, 0) == (if !"ECHO_"@.is_prefix_of(
            name,
        ) && !"user_config."@.is_prefix_of(name) {
            seq![name]
        } else {
            Seq::empty()
        }) + env_wanted(rest, 0),
{
    let s = text + seq!['$', '{'] + name + seq!['}'] + rest;
    let p = text.len() as int;
    let j = p + 2 + name.len();
    assert(text =~= s.take(p));
    lemma_env_text(text, s, 0, env);
    assert(text.subrange(0, p) =~= text);
    assert forall|k: int| p + 2 <= k < j implies s[k] != '}' by {
        assert(name.contains(name[k - p - 2]));
    }
    lemma_first_brace(s, p + 2, j);
    assert(s.subrange(p + 2, j) =~= name);
    lemma_env_behind(s, j + 1, j + 1, env);
    assert(s.subrange(j + 1, s.len() as int) =~= rest);
    reveal_strlit("${");
    reveal_strlit("}");
    assert("${"@ + name + "}"@ =~= seq!['$', '{'] + name + seq!['}']);
    let v = env_value(name, env);
    let z = env_filled(rest, 0, env);
    assert(text + (v + z) =~= text + v + z);
    lemma_wanted_text(text, s, 0);
    lemma_wanted_behind(s, j + 1, j + 1);
    assert(Seq::<Seq<char>>::empty() + env_wanted(rest, 0) =~= env_wanted(rest, 0));
}

proof fn lemma_wanted_text(a: Seq<char>, s: Seq<char>, i: int)
    requires
        0 <= i <= a.len() <= s.len(),
        a == s.take(a.len() as int),
        !a.contains('$'),
    ensures
        env_wanted(s, i) == env_wanted(s, a.len() as int),
    decreases a.len() - i,
{
    if i < a.len() {
        assert(a.contains(a[i]));
        assert(a[i] == s[i]);
        lemma_wanted_text(a, s, i + 1);
    }
}

proof fn lemma_wanted_behind(s: Seq<char>, k: int, from: int)
    requires
        0 <= k <= from,
        k <= s.len(),
    ensures
        env_wanted(s.subrange(k, s.len() as int), from - k) == env_wanted(s, from),
    decreases s.len() - from,
{
    let t = s.subrange(k, s.len() as int);
    if from < s.len() {
        if s[from] == '$' && from + 1 < s.len() && s[from + 1] == '{' {
            lemma_brace_behind(s, k, from + 2);
            lemma_brace(s, from + 2);
            if let Some(j) = brace_from(s, from + 2) {
                assert(t.subrange(from - k + 2, j - k) =~= s.subrange(from + 2, j));
                lemma_wanted_behind(s, k, j + 1);
            }
        } else {
            lemma_wanted_behind(s, k, from + 1);
        }
    }
}

/// What a variable of a plugin stands for: its directory, that of its data, that of the project, or a
/// setting of the user; any other variable for itself.
pub open spec fn plugin_meaning(vars: PluginVariables, name: Seq<char>) -> Seq<char> {
    if name == "ECHO_PLUGIN_ROOT"@ {
        vars.plugin_root@
    } else if name == "ECHO_PLUGIN_DATA"@ {
        vars.plugin_data@
    } else if name == "ECHO_PROJECT_DIR"@ {
        vars.project_dir@
    } else if "user_config."@.is_prefix_of(name) && vars.user_config@.contains_key(
        name.subrange(12, name.len() as int),
    ) {
        vars.user_config@[name.subrange(12, name.len() as int)]@
    } else {
        written(name)
    }
}

/// What a text of parts means for a plugin.
pub open spec fn plugin_meaning_of_parts(vars: PluginVariables, parts: Seq<BodyPart>) -> Seq<char>
    decreases parts.len(),
{
    if parts.len() == 0 {
        Seq::empty()
    } else {
        (match parts[0] {
            BodyPart::Text(t) => t,
            BodyPart::Variable(n) => plugin_meaning(vars, n),
        }) + plugin_meaning_of_parts(vars, parts.drop_first())
    }
}

spec fn setting_parts(
    parts: Seq<BodyPart>,
    config: Map<Seq<char>, String>,
    names: Seq<Seq<char>>,
) -> Seq<BodyPart>
    decreases names.len(),
{
    if names.len() == 0 {
        parts
    } else {
        filled_parts(
            setting_parts(parts, config, names.drop_last()),
            "user_config."@ + names.last(),
            config[names.last()]@,
        )
    }
}

proof fn lemma_setting_parts(
    parts: Seq<BodyPart>,
    config: Map<Seq<char>, String>,
    names: Seq<Seq<char>>,
)
    requires
        plain_parts(parts),
        forall|k: int|
            0 <= k < names.len() ==> !(#[trigger] names[k]).contains('$') && !names[k].contains('}')
                && !config[names[k]]@.contains('$'),
    ensures
        with_settings(body_of(parts), config, names) == body_of(
            setting_parts(parts, config, names),
        ),
        plain_parts(setting_parts(parts, config, names)),
        setting_parts(parts, config, names).len() == parts.len(),
    decreases names.len(),
{
    if names.len() > 0 {
        let front = names.drop_last();
        let last = names.last();
        assert(names[names.len() - 1] == last);
        assert forall|k: int| 0 <= k < front.len() implies !(#[trigger] front[k]).contains('$')
            && !front[k].contains('}') && !config[front[k]]@.contains('$') by {
            assert(front[k] == names[k]);
        }
        lemma_setting_parts(parts, config, front);
        let before = setting_parts(parts, config, front);
        reveal_strlit("user_config.");
        reveal_strlit("${user_config.");
        reveal_strlit("}");
        let full = "user_config."@ + last;
        assert forall|i: int| 0 <= i < full.len() implies full[i] != '$' && full[i] != '}' by {
            if i >= 12 {
                assert(last.contains(last[i - 12]));
            }
        }
        assert("${user_config."@ + last + "}"@ =~= written(full));
        lemma_fill_parts(before, full, config[last]@);
        lemma_filled_plain(before, full, config[last]@);
    }
}

proof fn lemma_setting_part(
    parts: Seq<BodyPart>,
    config: Map<Seq<char>, String>,
    names: Seq<Seq<char>>,
    i: int,
    key: Seq<char>,
)
    requires
        0 <= i < parts.len(),
    ensures
        setting_parts(parts, config, names).len() == parts.len(),
        parts[i] == BodyPart::Variable("user_config."@ + key) && names.contains(key)
            ==> setting_parts(parts, config, names)[i] == BodyPart::Text(config[key]@),
        (forall|k: int|
            0 <= k < names.len() ==> parts[i] != BodyPart::Variable(
                "user_config."@ + #[trigger] names[k],
            )) ==> setting_parts(parts, config, names)[i] == parts[i],
    decreases names.len(),
{
    if names.len() > 0 {
        let front = names.drop_last();
        let last = names.last();
        lemma_setting_part(parts, config, front, i, key);
        assert(names[names.len() - 1] == last);
        reveal_strlit("user_config.");
        if forall|k: int|
            0 <= k < names.len() ==> parts[i] != BodyPart::Variable(
                "user_config."@ + #[trigger] names[k],
            ) {
            assert forall|k: int| 0 <= k < front.len() implies parts[i] != BodyPart::Variable(
                "user_config."@ + #[trigger] front[k],
            ) by {
                assert(front[k] == names[k]);
            }
        }
        if parts[i] == BodyPart::Variable("user_config."@ + key) && names.contains(key) {
            if !front.contains(key) {
                let k = names.index_of(key);
                if k < front.len() {
                    assert(front[k] == key);
                }
                assert(key == last);
                assert forall|k: int| 0 <= k < front.len() implies parts[i] != BodyPart::Variable(
                    "user_config."@ + #[trigger] front[k],
                ) by {
                    if parts[i] == BodyPart::Variable("user_config."@ + front[k]) {
                        let x = "user_config."@ + front[k];
                        let y = "user_config."@ + key;
                        assert(x == y);
                        assert(x.subrange(12, x.len() as int) =~= front[k]);
                        assert(y.subrange(12, y.len() as int) =~= key);
                        assert(front.contains(front[k]));
                    }
                }
            }
        }
    }
}

proof fn lemma_same_plugin_text(
    vars: PluginVariables,
    filled: Seq<BodyPart>,
    parts: Seq<BodyPart>,
)
    requires
        filled.len() == parts.len(),
        forall|i: int|
            0 <= i < parts.len() ==> (match #[trigger] filled[i] {
                BodyPart::Text(t) => t,
                BodyPart::Variable(n) => written(n),
            }) == match parts[i] {
                BodyPart::Text(t) => t,
                BodyPart::Variable(n) => plugin_meaning(vars, n),
            },
    ensures
        body_of(filled) == plugin_meaning_of_parts(vars, parts),
    decreases parts.len(),
{
    if parts.len() > 0 {
        let f = filled.drop_first();
        let p = parts.drop_first();
        assert(filled[0] == filled[0]);
        assert forall|i: int| 0 <= i < p.len() implies (match #[trigger] f[i] {
            BodyPart::Text(t) => t,
            BodyPart::Variable(n) => written(n),
        }) == match p[i] {
            BodyPart::Text(t) => t,
            BodyPart::Variable(n) => plugin_meaning(vars, n),
        } by {
            assert(f[i] == filled[i + 1]);
            assert(p[i] == parts[i + 1]);
        }
        lemma_same_plugin_text(vars, f, p);
    }
}

/// Filling in the variables of a plugin and the settings of its user gives what the text means: every
/// occurrence of a variable, and nothing else, becomes what that variable stands for.
pub proof fn law_plugin_variables_are_filled_in(vars: PluginVariables, parts: Seq<BodyPart>)
    requires
        plain_parts(parts),
        !vars.plugin_root@.contains('$'),
        !vars.plugin_data@.contains('$'),
        !vars.project_dir@.contains('$'),
        vars.user_config@.dom().finite(),
        forall|k: Seq<char>| #[trigger]
            vars.user_config@.contains_key(k) ==> !k.contains('$') && !k.contains('}')
                && !vars.user_config@[k]@.contains('$'),
    ensures
        vars.own_filled(body_of(parts)) == plugin_meaning_of_parts(vars, parts),
{
    reveal_strlit("${ECHO_PLUGIN_ROOT}");
    reveal_strlit("${ECHO_PLUGIN_DATA}");
    reveal_strlit("${ECHO_PROJECT_DIR}");
    reveal_strlit("ECHO_PLUGIN_ROOT");
    reveal_strlit("ECHO_PLUGIN_DATA");
    reveal_strlit("ECHO_PROJECT_DIR");
    reveal_strlit("user_config.");
    assert("${ECHO_PLUGIN_ROOT}"@ =~= written("ECHO_PLUGIN_ROOT"@));
    assert("${ECHO_PLUGIN_DATA}"@ =~= written("ECHO_PLUGIN_DATA"@));
    assert("${ECHO_PROJECT_DIR}"@ =~= written("ECHO_PROJECT_DIR"@));
    let config = vars.user_config@;
    let names = in_order(config.dom());
    law_names_are_listed_in_order(config.dom());
    let a = filled_parts(parts, "ECHO_PLUGIN_ROOT"@, vars.plugin_root@);
    lemma_fill_parts(parts, "ECHO_PLUGIN_ROOT"@, vars.plugin_root@);
    lemma_filled_plain(parts, "ECHO_PLUGIN_ROOT"@, vars.plugin_root@);
    let b = filled_parts(a, "ECHO_PLUGIN_DATA"@, vars.plugin_data@);
    lemma_fill_parts(a, "ECHO_PLUGIN_DATA"@, vars.plugin_data@);
    lemma_filled_plain(a, "ECHO_PLUGIN_DATA"@, vars.plugin_data@);
    let c = filled_parts(b, "ECHO_PROJECT_DIR"@, vars.project_dir@);
    lemma_fill_parts(b, "ECHO_PROJECT_DIR"@, vars.project_dir@);
    lemma_filled_plain(b, "ECHO_PROJECT_DIR"@, vars.project_dir@);
    assert forall|k: int| 0 <= k < names.len() implies !(#[trigger] names[k]).contains('$')
        && !names[k].contains('}') && !config[names[k]]@.contains('$') by {
        assert(names.to_set().contains(names[k]));
        assert(config.contains_key(names[k]));
    }
    lemma_setting_parts(c, config, names);
    let f = setting_parts(c, config, names);
    assert forall|i: int| 0 <= i < parts.len() implies (match #[trigger] f[i] {
        BodyPart::Text(t) => t,
        BodyPart::Variable(m) => written(m),
    }) == match parts[i] {
        BodyPart::Text(t) => t,
        BodyPart::Variable(m) => plugin_meaning(vars, m),
    } by {
        match c[i] {
            BodyPart::Text(t) => {
                lemma_setting_part(c, config, names, i, t);
            },
            BodyPart::Variable(m) => {
                assert(parts[i] == c[i]);
                let key = m.subrange(12, m.len() as int);
                lemma_setting_part(c, config, names, i, key);
                if "user_config."@.is_prefix_of(m) && config.contains_key(key) {
                    assert(m =~= "user_config."@ + key);
                    assert(names.to_set().contains(key));
                } else {
                    assert forall|k: int| 0 <= k < names.len() implies c[i] != BodyPart::Variable(
                        "user_config."@ + #[trigger] names[k],
                    ) by {
                        if m == "user_config."@ + names[k] {
                            assert("user_config."@ =~= m.take(12));
                            assert(m.subrange(12, m.len() as int) =~= names[k]);
                            assert(names.to_set().contains(names[k]));
                        }
                    }
                }
            },
        }
    }
    lemma_same_plugin_text(vars, f, parts);
}

/// A setting of the user is handed on under its name in upper case behind a fixed beginning, where that
/// is the name of a variable; each setting once, in the order of the names, and nothing else.
pub proof fn law_settings_are_exported(
    config: Map<Seq<char>, String>,
    a: Seq<Seq<char>>,
    b: Seq<Seq<char>>,
    name: Seq<char>,
)
    ensures
        setting_exports(config, a + b) == setting_exports(config, a) + setting_exports(config, b),
        variable_name(upper_text(name)) ==> setting_exports(config, seq![name]) == seq![
            ("ECHO_PLUGIN_OPTION_"@ + upper_text(name), config[name]@),
        ],
        !variable_name(upper_text(name)) ==> setting_exports(config, seq![name]).len() == 0,
    decreases b.len(),
{
    if b.len() == 0 {
        assert(a + b =~= a);
        assert(setting_exports(config, a) + setting_exports(config, b) =~= setting_exports(
            config,
            a,
        ));
    } else {
        assert((a + b).drop_last() =~= a + b.drop_last());
        law_settings_are_exported(config, a, b.drop_last(), name);
        assert(setting_exports(config, a + b) =~= setting_exports(config, a) + setting_exports(
            config,
            b,
        ));
    }
    let one = seq![name];
    assert(one.drop_last() =~= Seq::<Seq<char>>::empty());
    assert(setting_exports(config, one.drop_last()) =~= Seq::<(Seq<char>, Seq<char>)>::empty());
    assert(setting_exports(config, one) =~= if variable_name(upper_text(name)) {
        seq![("ECHO_PLUGIN_OPTION_"@ + upper_text(name), config[name]@)]
    } else {
        Seq::empty()
    });
}

/// A path that a manifest names stands below the directory of the plugin, with or without the current
/// directory in front of it.
pub proof fn law_named_paths_stand_below_the_plugin(root: Seq<char>, path: Seq<char>)
    requires
        !"./"@.is_prefix_of(path),
    ensures
        below(root, path) == joined_path(root, path),
        below(root, "./"@ + path) == joined_path(root, path),
{
    reveal_strlit("./");
    let p = "./"@ + path;
    assert("./"@ =~= p.take(2));
    assert(p.subrange(2, p.len() as int) =~= path);
}

} // verus!
