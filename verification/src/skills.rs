//! Skills: their descriptors, their content and their resources.

use vstd::prelude::*;
use crate::hook_engine::HooksDefinition;
use crate::lists::copy_strings;
use crate::paths::{file_name, file_name_of, parent, parent_of};
use crate::patterns::{glob_error, glob_matches, name_matches, pattern_error, pattern_hits, tool_matcher};
use crate::sandbox::IsolationLevel;
use crate::table::{table_texts, Table};
use crate::text::{
    add_to, byte_count, chars_of, concat, contains, contains_str, count_char, count_of, decimal,
    ends_with, extend, join, joined, law_one_occurrence_is_replaced, no_strings, number_large, occurs_at, opt_str, replace, replaced, same,
    starts_with, string_of, strs, text_bytes, trim, trimmed, words, words_of,
};

verus! {

// ── Sandbox policy ──────────────────────────────────────────────────────────────────────────

/// How the scripts of a skill are isolated.
pub struct SkillSandboxPolicy {
    /// Required isolation.
    pub isolation: Option<IsolationLevel>,
    /// Whether the network may be reached.
    pub network: Option<bool>,
    /// Time limit in seconds.
    pub timeout_secs: Option<u64>,
    /// Paths that may be used.
    pub allowed_paths: Vec<String>,
    /// Paths that may not be used.
    pub denied_paths: Vec<String>,
}

/// What a sandbox policy holds.
pub struct PolicyView {
    pub isolation: Option<IsolationLevel>,
    pub network: Option<bool>,
    pub timeout_secs: Option<u64>,
    pub allowed_paths: Seq<Seq<char>>,
    pub denied_paths: Seq<Seq<char>>,
}

impl View for SkillSandboxPolicy {
    type V = PolicyView;

    open spec fn view(&self) -> PolicyView {
        PolicyView {
            isolation: self.isolation,
            network: self.network,
            timeout_secs: self.timeout_secs,
            allowed_paths: strs(self.allowed_paths@),
            denied_paths: strs(self.denied_paths@),
        }
    }
}

impl PolicyView {
    /// Whether the policy constrains anything.
    pub open spec fn constrains(&self) -> bool {
        ||| self.isolation is Some
        ||| self.network is Some
        ||| self.timeout_secs is Some
        ||| self.allowed_paths.len() > 0
        ||| self.denied_paths.len() > 0
    }
}

impl SkillSandboxPolicy {
    /// Whether the policy constrains anything.
    pub fn is_constraining(&self) -> (r: bool)
        ensures
            r == self@.constrains(),
    {
        self.isolation.is_some() || self.network.is_some() || self.timeout_secs.is_some()
            || self.allowed_paths.len() > 0 || self.denied_paths.len() > 0
    }

    /// Whether the network may be reached; it may not unless the policy says so.
    pub fn network_allowed(&self) -> (r: bool)
        ensures
            r == (self.network == Some(true)),
    {
        match self.network {
            Some(b) => b,
            None => false,
        }
    }

    /// A policy that holds the same.
    pub fn copy(&self) -> (r: SkillSandboxPolicy)
        ensures
            r@ == self@,
    {
        SkillSandboxPolicy {
            isolation: self.isolation,
            network: self.network,
            timeout_secs: self.timeout_secs,
            allowed_paths: copy_strings(&self.allowed_paths),
            denied_paths: copy_strings(&self.denied_paths),
        }
    }
}

impl Default for SkillSandboxPolicy {
    fn default() -> (r: SkillSandboxPolicy)
        ensures
            !r@.constrains(),
    {
        SkillSandboxPolicy {
            isolation: None,
            network: None,
            timeout_secs: None,
            allowed_paths: Vec::new(),
            denied_paths: Vec::new(),
        }
    }
}

// ── Descriptor ──────────────────────────────────────────────────────────────────────────────

/// What is known of a skill before it is activated.
pub struct SkillDescriptor {
    /// Unique name.
    pub name: String,
    /// What the skill does and when to use it.
    pub description: String,
    /// Path of the skill file.
    pub location: String,
    /// License.
    pub license: Option<String>,
    /// Requirements on the environment.
    pub compatibility: Option<String>,
    /// Further data by name.
    pub metadata: Table<String>,
    /// Tools that the skill may use; all where none is listed.
    pub allowed_tools: Vec<String>,
    /// Preferred shell.
    pub shell: Option<String>,
    /// Path patterns under which the skill is offered; always where none is listed.
    pub paths: Vec<String>,
    /// Words and phrases that call for the skill.
    pub triggers: Vec<String>,
    /// Hooks of the skill.
    pub hooks: Option<HooksDefinition>,
    /// How its scripts are isolated.
    pub sandbox: Option<SkillSandboxPolicy>,
    /// Skills that are activated before this one.
    pub depends_on: Vec<String>,
}

/// The notes with a list of items added under a label, where there are items.
pub open spec fn noted(
    notes: Seq<Seq<char>>,
    label: Seq<char>,
    items: Seq<Seq<char>>,
) -> Seq<Seq<char>> {
    if items.len() == 0 {
        notes
    } else {
        notes.push(label + join(items, ", "@))
    }
}

fn note(notes: &mut Vec<String>, label: &str, items: &Vec<String>)
    ensures
        strs(final(notes)@) == noted(strs(old(notes)@), label@, strs(items@)),
{
    if items.len() > 0 {
        let text = concat(label, joined(items, ", ").as_str());
        add_to(notes, text.as_str());
    }
}

/// The list with a warning added where there is one.
pub open spec fn warned(
    warnings: Seq<Seq<char>>,
    on: bool,
    message: Seq<char>,
) -> Seq<Seq<char>> {
    if on {
        warnings.push(message)
    } else {
        warnings
    }
}

/// Whether a character may stand in the name of a skill.
pub open spec fn name_char(c: char) -> bool {
    ('a' <= c && c <= 'z') || ('0' <= c && c <= '9') || c == '-'
}

/// The first character that may not stand in the name of a skill.
pub open spec fn wrong_char(s: Seq<char>) -> Option<char>
    decreases s.len(),
{
    if s.len() == 0 {
        None
    } else if !name_char(s[0]) {
        Some(s[0])
    } else {
        wrong_char(s.drop_first())
    }
}

/// The warnings about a name.
pub open spec fn name_warnings(name: Seq<char>) -> Seq<Seq<char>> {
    let n = text_bytes(name);
    let w1 = warned(
        Seq::empty(),
        n == 0 || n > 64,
        "name '"@ + name + "' length "@ + decimal(n) + " outside 1-64 range"@,
    );
    let w2 = warned(
        w1,
        "-"@.is_prefix_of(name) || "-"@.is_suffix_of(name),
        "name '"@ + name + "' must not start or end with hyphen"@,
    );
    let w3 = warned(
        w2,
        contains(name, "--"@),
        "name '"@ + name + "' must not contain consecutive hyphens"@,
    );
    match wrong_char(name) {
        Some(c) => w3.push(
            "name '"@ + name + "' contains invalid character '"@ + seq![c]
                + "' (only lowercase, digits, hyphens allowed)"@,
        ),
        None => w3,
    }
}

/// The warnings about a path pattern, given what `glob` says of it.
pub open spec fn path_warnings(p: Seq<char>, error: Option<Seq<char>>) -> Seq<Seq<char>> {
    let head = "path pattern '"@ + p;
    if contains(p, ".."@) {
        seq![head + "' contains '..' which is not allowed"@]
    } else {
        let w1 = warned(
            Seq::empty(),
            count_char(p, '{') != count_char(p, '}'),
            head + "' has unbalanced braces"@,
        );
        let w2 = warned(
            w1,
            count_char(p, '[') != count_char(p, ']'),
            head + "' has unbalanced brackets"@,
        );
        let w3 = warned(
            w2,
            p == "**"@ || p == "*"@,
            head + "' is overly broad and may match unintended files"@,
        );
        match error {
            Some(e) => w3.push(head + "' is not valid glob syntax: "@ + e),
            None => w3,
        }
    }
}

/// The warnings about all path patterns.
pub open spec fn all_path_warnings(paths: Seq<Seq<char>>) -> Seq<Seq<char>>
    decreases paths.len(),
{
    if paths.len() == 0 {
        Seq::empty()
    } else {
        all_path_warnings(paths.drop_last()) + path_warnings(
            paths.last(),
            glob_error(paths.last()),
        )
    }
}

/// A text without the copies of `p` at its beginning.
pub open spec fn without_prefixes(s: Seq<char>, p: Seq<char>) -> Seq<char>
    decreases s.len(),
{
    if p.len() > 0 && p.is_prefix_of(s) {
        without_prefixes(s.subrange(p.len() as int, s.len() as int), p)
    } else {
        s
    }
}

/// The texts of a touched path that are compared with the patterns: without leading `./`, with
/// slashes only, and its last component.
pub open spec fn path_forms(path: Seq<char>) -> (Seq<char>, Seq<char>, Seq<char>) {
    let normal = replace(path, "\\"@, "/"@);
    let bare = without_prefixes(normal, "./"@);
    let name = match file_name(bare) {
        Some(n) => n,
        None => bare,
    };
    (bare, normal, name)
}

/// Whether a pattern matches one of the forms of a path.
pub open spec fn hits_path(pattern: Seq<char>, forms: (Seq<char>, Seq<char>, Seq<char>)) -> bool {
    glob_matches(pattern, forms.0) || glob_matches(pattern, forms.1) || glob_matches(
        pattern,
        forms.2,
    )
}

/// The warnings about a path pattern, given what `glob` says of it.
pub fn warnings_for_path(pattern: &str, error: &Option<String>) -> (r: Vec<String>)
    ensures
        strs(r@) == path_warnings(pattern@, opt_str(*error)),
{
    let mut out = no_strings();
    let head = concat("path pattern '", pattern);
    if contains_str(pattern, "..") {
        let m = concat(head.as_str(), "' contains '..' which is not allowed");
        add_to(&mut out, m.as_str());
        assert(strs(out@) =~= seq![m@]);
        return out;
    }
    if count_of(pattern, '{') != count_of(pattern, '}') {
        add_to(&mut out, concat(head.as_str(), "' has unbalanced braces").as_str());
    }
    if count_of(pattern, '[') != count_of(pattern, ']') {
        add_to(&mut out, concat(head.as_str(), "' has unbalanced brackets").as_str());
    }
    if same(pattern, "**") || same(pattern, "*") {
        add_to(
            &mut out,
            concat(head.as_str(), "' is overly broad and may match unintended files").as_str(),
        );
    }
    if let Some(e) = error {
        let mut m = concat(head.as_str(), "' is not valid glob syntax: ");
        m.push_str(e.as_str());
        add_to(&mut out, m.as_str());
    }
    out
}

fn without_prefixes_of(s: &str, p: &str) -> (r: String)
    ensures
        r@ == without_prefixes(s@, p@),
    decreases s@.len(),
{
    let n: usize = chars_of(p).len();
    if n > 0 && starts_with(s, p) {
        let v = chars_of(s);
        let rest = string_of(&v, n, v.len());
        without_prefixes_of(rest.as_str(), p)
    } else {
        s.to_owned()
    }
}

impl SkillDescriptor {
    /// The notes of the catalog line.
    pub open spec fn notes(&self) -> Seq<Seq<char>> {
        noted(
            noted(
                noted(Seq::empty(), "activates for: "@, strs(self.paths@)),
                "triggers: "@,
                strs(self.triggers@),
            ),
            "depends: "@,
            strs(self.depends_on@),
        )
    }

    /// The line of the skill in the catalog.
    pub open spec fn line(&self) -> Seq<char> {
        let head = "- "@ + self.name@ + ": "@ + self.description@;
        if self.notes().len() == 0 {
            head
        } else {
            head + " ["@ + join(self.notes(), "; "@) + "]"@
        }
    }

    /// The line of the skill in the catalog.
    pub fn catalog_line(&self) -> (r: String)
        ensures
            r@ == self.line(),
    {
        let mut line = concat("- ", self.name.as_str());
        line.push_str(": ");
        line.push_str(self.description.as_str());
        let mut notes = no_strings();
        note(&mut notes, "activates for: ", &self.paths);
        note(&mut notes, "triggers: ", &self.triggers);
        note(&mut notes, "depends: ", &self.depends_on);
        if notes.len() > 0 {
            line.push_str(" [");
            line.push_str(joined(&notes, "; ").as_str());
            line.push_str("]");
        }
        line
    }

    /// The warnings about the name; none for a valid one.
    pub fn validate_name(&self) -> (r: Vec<String>)
        ensures
            strs(r@) == name_warnings(self.name@),
    {
        let name = self.name.as_str();
        let mut out = no_strings();
        let head = concat("name '", name);
        let n: u128 = byte_count(name);
        if n == 0 || n > 64 {
            let mut m = concat(head.as_str(), "' length ");
            m.push_str(number_large(n).as_str());
            m.push_str(" outside 1-64 range");
            add_to(&mut out, m.as_str());
        }
        if starts_with(name, "-") || ends_with(name, "-") {
            add_to(
                &mut out,
                concat(head.as_str(), "' must not start or end with hyphen").as_str(),
            );
        }
        if contains_str(name, "--") {
            add_to(
                &mut out,
                concat(head.as_str(), "' must not contain consecutive hyphens").as_str(),
            );
        }
        let v = chars_of(name);
        let ghost base = strs(out@);
        let mut i: usize = 0;
        assert(name@.subrange(0, name@.len() as int) =~= name@);
        while i < v.len()
            invariant
                v@ == name@,
                i <= v.len(),
                wrong_char(name@) == wrong_char(name@.subrange(i as int, name@.len() as int)),
                head@ == "name '"@ + name@,
                name@ == self.name@,
                base == strs(out@),
                name_warnings(name@) == match wrong_char(name@) {
                    Some(c) => base.push(
                        "name '"@ + name@ + "' contains invalid character '"@ + seq![c]
                            + "' (only lowercase, digits, hyphens allowed)"@,
                    ),
                    None => base,
                },
            decreases v.len() - i,
        {
            let c = v[i];
            let ghost t = name@.subrange(i as int, name@.len() as int);
            assert(t.drop_first() =~= name@.subrange(i + 1, name@.len() as int));
            if !(('a' <= c && c <= 'z') || ('0' <= c && c <= '9') || c == '-') {
                let mut m = concat(head.as_str(), "' contains invalid character '");
                let ghost before = m@;
                m.push(c);
                assert(m@ =~= before + seq![c]);
                m.push_str("' (only lowercase, digits, hyphens allowed)");
                add_to(&mut out, m.as_str());
                return out;
            }
            i = i + 1;
        }
        out
    }

    /// The warnings about the path patterns; none for valid and narrow ones.
    pub fn validate_paths(&self) -> (r: Vec<String>)
        ensures
            strs(r@) == all_path_warnings(strs(self.paths@)),
    {
        let ghost all = strs(self.paths@);
        let mut out = no_strings();
        let mut i: usize = 0;
        assert(all.take(0) =~= Seq::<Seq<char>>::empty());
        while i < self.paths.len()
            invariant
                all == strs(self.paths@),
                i <= self.paths.len(),
                strs(out@) == all_path_warnings(all.take(i as int)),
            decreases self.paths.len() - i,
        {
            let error = pattern_error(self.paths[i].as_str());
            let more = warnings_for_path(self.paths[i].as_str(), &error);
            extend(&mut out, more);
            assert(all.take(i + 1).drop_last() =~= all.take(i as int));
            assert(all.take(i + 1).last() == self.paths@[i as int]@);
            i = i + 1;
        }
        assert(all.take(all.len() as int) =~= all);
        out
    }

    /// Whether the skill is offered when a file is touched.
    pub fn matches_context_path(&self, context_path: &str) -> (r: bool)
        ensures
            r == (self.paths@.len() == 0 || exists|i: int|
                0 <= i < self.paths@.len() && hits_path(
                    (#[trigger] self.paths@[i])@,
                    path_forms(context_path@),
                )),
    {
        if self.paths.len() == 0 {
            return true;
        }
        proof {
            reveal_strlit("\\");
        }
        let normal = replaced(context_path, "\\", "/");
        let bare = without_prefixes_of(normal.as_str(), "./");
        let name = match file_name_of(bare.as_str()) {
            Some(n) => n,
            None => bare.clone(),
        };
        let ghost forms = path_forms(context_path@);
        assert(forms == (bare@, normal@, name@));
        let mut i: usize = 0;
        while i < self.paths.len()
            invariant
                forms == (bare@, normal@, name@),
                forms == path_forms(context_path@),
                i <= self.paths.len(),
                forall|k: int| 0 <= k < i ==> !hits_path((#[trigger] self.paths@[k])@, forms),
            decreases self.paths.len() - i,
        {
            let p = self.paths[i].as_str();
            if pattern_hits(p, bare.as_str()) || pattern_hits(p, normal.as_str()) || pattern_hits(
                p,
                name.as_str(),
            ) {
                assert(hits_path(self.paths@[i as int]@, forms));
                return true;
            }
            i = i + 1;
        }
        false
    }

    /// Whether the skill may use a tool: any where it lists none, else one that matches an entry.
    pub fn permits_tool(&self, tool_name: &str) -> (r: bool)
        ensures
            r == tools_permit(strs(self.allowed_tools@), tool_name@),
    {
        if self.allowed_tools.len() == 0 {
            return true;
        }
        let ghost all = strs(self.allowed_tools@);
        let mut i: usize = 0;
        while i < self.allowed_tools.len()
            invariant
                all == strs(self.allowed_tools@),
                i <= self.allowed_tools.len(),
                forall|k: int|
                    0 <= k < i ==> !(#[trigger] all[k] == "*"@ || name_matches(
                        all[k],
                        tool_name@,
                    )),
            decreases self.allowed_tools.len() - i,
        {
            assert(all[i as int] == self.allowed_tools@[i as int]@);
            if tool_matcher(self.allowed_tools[i].as_str(), tool_name) {
                return true;
            }
            i = i + 1;
        }
        false
    }
}

/// Whether a list of tool matchers permits a tool.
pub open spec fn tools_permit(allowed: Seq<Seq<char>>, tool: Seq<char>) -> bool {
    allowed.len() == 0 || exists|i: int|
        0 <= i < allowed.len() && (#[trigger] allowed[i] == "*"@ || name_matches(allowed[i], tool))
}

// ── Content and resources ───────────────────────────────────────────────────────────────────

/// What a resource file of a skill is for.
#[derive(Debug, Clone, Copy, PartialEq, Eq, Structural)]
pub enum SkillResourceKind {
    Script,
    Reference,
    Asset,
    Other,
}

impl SkillResourceKind {
    /// The name of the kind.
    pub open spec fn name(&self) -> Seq<char> {
        match self {
            SkillResourceKind::Script => "script"@,
            SkillResourceKind::Reference => "reference"@,
            SkillResourceKind::Asset => "asset"@,
            SkillResourceKind::Other => "other"@,
        }
    }

    /// The name of the kind.
    pub fn as_str(&self) -> (r: &'static str)
        ensures
            r@ == self.name(),
    {
        match self {
            SkillResourceKind::Script => "script",
            SkillResourceKind::Reference => "reference",
            SkillResourceKind::Asset => "asset",
            SkillResourceKind::Other => "other",
        }
    }
}

/// A resource file of a skill.
pub struct SkillResourceEntry {
    /// Path below the directory of the skill.
    pub relative_path: String,
    /// What the file is for.
    pub kind: SkillResourceKind,
}

/// The path and the kind of each entry.
pub open spec fn entry_views(v: Seq<SkillResourceEntry>) -> Seq<(Seq<char>, SkillResourceKind)> {
    v.map_values(|e: SkillResourceEntry| (e.relative_path@, e.kind))
}

/// What an activated skill gives.
pub struct SkillContent<'a> {
    /// The descriptor of the skill.
    pub descriptor: &'a SkillDescriptor,
    /// Its instructions.
    pub instructions: String,
    /// Its resource files.
    pub resources: Vec<SkillResourceEntry>,
}

/// The lines about the resource files.
pub open spec fn resource_lines(entries: Seq<(Seq<char>, SkillResourceKind)>) -> Seq<char>
    decreases entries.len(),
{
    if entries.len() == 0 {
        Seq::empty()
    } else {
        resource_lines(entries.drop_last()) + "\n  <file kind=\""@ + entries.last().1.name()
            + "\">"@ + entries.last().0 + "</file>"@
    }
}

impl SkillContent<'_> {
    /// The directory of the skill.
    pub open spec fn directory(&self) -> Seq<char> {
        match parent(self.descriptor.location@) {
            Some(d) => d,
            None => Seq::empty(),
        }
    }

    /// The content as a block for the model.
    pub open spec fn block(&self) -> Seq<char> {
        let head = "<skill_content name=\""@ + self.descriptor.name@ + "\">\n"@ + trim(
            self.instructions@,
        ) + "\n\nSkill directory: "@ + self.directory()
            + "\nRelative paths in this skill are relative to the skill directory."@;
        let tools = strs(self.descriptor.allowed_tools@);
        let with_tools = if tools.len() == 0 {
            head
        } else {
            head
                + "\n\n<allowed_tools>\nThis skill declares the following preferred/allowed tools: "@
                + join(tools, ", "@)
                + "\nRuntime enforcement currently applies to the built-in skill tools such as read_skill_resource and run_skill_script.\n</allowed_tools>"@
        };
        let entries = entry_views(self.resources@);
        let with_resources = if entries.len() == 0 {
            with_tools
        } else {
            with_tools + "\n\n<skill_resources>"@ + resource_lines(entries)
                + "\n</skill_resources>"@
        };
        with_resources + "\n</skill_content>"@
    }

    fn resources_text(&self) -> (r: String)
        ensures
            r@ == resource_lines(entry_views(self.resources@)),
    {
        let ghost all = entry_views(self.resources@);
        let mut out = String::new();
        let mut i: usize = 0;
        assert(all.take(0) =~= Seq::empty());
        while i < self.resources.len()
            invariant
                all == entry_views(self.resources@),
                i <= self.resources.len(),
                out@ == resource_lines(all.take(i as int)),
            decreases self.resources.len() - i,
        {
            out.push_str("\n  <file kind=\"");
            out.push_str(self.resources[i].kind.as_str());
            out.push_str("\">");
            out.push_str(self.resources[i].relative_path.as_str());
            out.push_str("</file>");
            assert(all.take(i + 1).drop_last() =~= all.take(i as int));
            i = i + 1;
        }
        assert(all.take(all.len() as int) =~= all);
        out
    }

    /// The content as a block for the model.
    pub fn to_prompt_block(&self) -> (r: String)
        ensures
            r@ == self.block(),
    {
        let dir = match parent_of(self.descriptor.location.as_str()) {
            Some(d) => d,
            None => String::new(),
        };
        assert(dir@ =~= self.directory());
        let mut block = concat("<skill_content name=\"", self.descriptor.name.as_str());
        block.push_str("\">\n");
        block.push_str(trimmed(self.instructions.as_str()).as_str());
        block.push_str("\n\nSkill directory: ");
        block.push_str(dir.as_str());
        block.push_str("\nRelative paths in this skill are relative to the skill directory.");
        if self.descriptor.allowed_tools.len() > 0 {
            block.push_str(
                "\n\n<allowed_tools>\nThis skill declares the following preferred/allowed tools: ",
            );
            block.push_str(joined(&self.descriptor.allowed_tools, ", ").as_str());
            block.push_str(
                "\nRuntime enforcement currently applies to the built-in skill tools such as read_skill_resource and run_skill_script.\n</allowed_tools>",
            );
        }
        if self.resources.len() > 0 {
            block.push_str("\n\n<skill_resources>");
            block.push_str(self.resources_text().as_str());
            block.push_str("\n</skill_resources>");
        }
        block.push_str("\n</skill_content>");
        block
    }
}

// ── Header of a skill file ──────────────────────────────────────────────────────────────────

/// The tools of a skill, as one text or as a list.
pub enum AllowedToolsValue {
    Text(String),
    List(Vec<String>),
}

impl AllowedToolsValue {
    /// The tools.
    pub open spec fn tools(&self) -> Seq<Seq<char>> {
        match self {
            AllowedToolsValue::Text(s) => words(s@),
            AllowedToolsValue::List(v) => strs(v@),
        }
    }

    /// The tools.
    pub fn into_vec(self) -> (r: Vec<String>)
        ensures
            strs(r@) == self.tools(),
    {
        match self {
            AllowedToolsValue::Text(s) => words_of(s.as_str()),
            AllowedToolsValue::List(v) => v,
        }
    }
}

/// A resource that an old skill file names.
pub struct LegacyResourceRef {
    pub name: String,
    pub path: String,
    pub description: Option<String>,
    pub load_on_startup: Option<bool>,
}

/// The header of a skill file as it was written.
pub struct RawFrontmatter {
    pub name: String,
    pub description: String,
    pub license: Option<String>,
    pub compatibility: Option<String>,
    pub metadata: Option<Table<String>>,
    pub allowed_tools: Option<AllowedToolsValue>,
    pub shell: Option<String>,
    pub paths: Option<Vec<String>>,
    pub triggers: Option<Vec<String>>,
    pub hooks: Option<HooksDefinition>,
    pub sandbox: Option<SkillSandboxPolicy>,
    pub depends_on: Option<Vec<String>>,
    pub version: Option<String>,
    pub author: Option<String>,
    pub tags: Option<Vec<String>>,
    pub instructions: Option<String>,
    pub resources: Option<Vec<LegacyResourceRef>>,
}

/// The table with a text added where there is one and the name is still free.
pub open spec fn with_default(
    m: Map<Seq<char>, Seq<char>>,
    key: Seq<char>,
    value: Option<Seq<char>>,
) -> Map<Seq<char>, Seq<char>> {
    match value {
        Some(v) => if m.contains_key(key) {
            m
        } else {
            m.insert(key, v)
        },
        None => m,
    }
}

/// The strings of an optional list; none where it is missing.
pub open spec fn list_or_none(o: Option<Vec<String>>) -> Seq<Seq<char>> {
    match o {
        Some(v) => strs(v@),
        None => Seq::empty(),
    }
}

fn set_default(t: &mut Table<String>, key: &str, value: &Option<String>)
    ensures
        table_texts(final(t)@) == with_default(table_texts(old(t)@), key@, opt_str(*value)),
{
    if let Some(v) = value {
        if !t.contains_key(key) {
            let _ = t.insert(key.to_owned(), v.clone());
            assert(table_texts(t@) =~= table_texts(old(t)@).insert(key@, v@));
        }
    }
}

fn or_no_strings(o: Option<Vec<String>>) -> (r: Vec<String>)
    ensures
        strs(r@) == list_or_none(o),
{
    match o {
        Some(v) => v,
        None => no_strings(),
    }
}

impl RawFrontmatter {
    /// The data by name, with the fields of old skill files folded in.
    pub open spec fn folded_metadata(&self) -> Map<Seq<char>, Seq<char>> {
        let base = match self.metadata {
            Some(t) => table_texts(t@),
            None => Map::empty(),
        };
        let tags = match self.tags {
            Some(t) => Some(join(strs(t@), ", "@)),
            None => None,
        };
        with_default(
            with_default(
                with_default(base, "version"@, opt_str(self.version)),
                "author"@,
                opt_str(self.author),
            ),
            "tags"@,
            tags,
        )
    }

    /// The descriptor of the skill whose file is at `location`.
    pub fn into_descriptor(self, location: &str) -> (r: SkillDescriptor)
        ensures
            r.name == self.name,
            r.description == self.description,
            r.location@ == location@,
            r.license == self.license,
            r.compatibility == self.compatibility,
            table_texts(r.metadata@) == self.folded_metadata(),
            strs(r.allowed_tools@) == match self.allowed_tools {
                Some(a) => a.tools(),
                None => Seq::empty(),
            },
            r.shell == self.shell,
            strs(r.paths@) == list_or_none(self.paths),
            strs(r.triggers@) == list_or_none(self.triggers),
            r.hooks == self.hooks,
            r.sandbox == self.sandbox,
            strs(r.depends_on@) == list_or_none(self.depends_on),
    {
        let ghost this = self;
        let mut metadata = match self.metadata {
            Some(t) => t,
            None => Table::new(),
        };
        let tags: Option<String> = match &self.tags {
            Some(t) => Some(joined(t, ", ")),
            None => None,
        };
        assert(this.metadata is None ==> table_texts(metadata@) =~= Map::<
            Seq<char>,
            Seq<char>,
        >::empty());
        set_default(&mut metadata, "version", &self.version);
        set_default(&mut metadata, "author", &self.author);
        set_default(&mut metadata, "tags", &tags);
        let allowed_tools = match self.allowed_tools {
            Some(a) => a.into_vec(),
            None => no_strings(),
        };
        SkillDescriptor {
            name: self.name,
            description: self.description,
            location: location.to_owned(),
            license: self.license,
            compatibility: self.compatibility,
            metadata,
            allowed_tools,
            shell: self.shell,
            paths: or_no_strings(self.paths),
            triggers: or_no_strings(self.triggers),
            hooks: self.hooks,
            sandbox: self.sandbox,
            depends_on: or_no_strings(self.depends_on),
        }
    }

    /// Whether the file has any of the fields of old skill files: the version, the author, the tags,
    /// the instructions or the resources.
    pub fn is_legacy_format(&self) -> (r: bool)
        ensures
            r == (self.version is Some || self.author is Some || self.tags is Some
                || self.instructions is Some || self.resources is Some),
    {
        self.version.is_some() || self.author.is_some() || self.tags.is_some()
            || self.instructions.is_some() || self.resources.is_some()
    }
}

// ── Laws ────────────────────────────────────────────────────────────────────────────────────

proof fn lemma_wrong_char(s: Seq<char>)
    ensures
        wrong_char(s) is None <==> forall|i: int| 0 <= i < s.len() ==> name_char(#[trigger] s[i]),
    decreases s.len(),
{
    if s.len() > 0 {
        lemma_wrong_char(s.drop_first());
        let t = s.drop_first();
        assert forall|i: int| 0 <= i < t.len() implies t[i] == #[trigger] s[i + 1] by {}
        if forall|i: int| 0 <= i < t.len() ==> name_char(#[trigger] t[i]) {
            if name_char(s[0]) {
                assert forall|i: int| 0 <= i < s.len() implies name_char(#[trigger] s[i]) by {
                    if i > 0 {
                        assert(t[i - 1] == s[i]);
                    }
                }
            }
        } else {
            let i = choose|i: int| 0 <= i < t.len() && !name_char(#[trigger] t[i]);
            assert(!name_char(s[i + 1]));
        }
    }
}

/// A name draws no warning exactly if it has one to 64 characters, all of them lower-case letters,
/// digits or hyphens, with no hyphen at either end and no two hyphens in a row.
pub proof fn law_valid_names(name: Seq<char>)
    ensures
        name_warnings(name).len() == 0 <==> {
            &&& 1 <= text_bytes(name) <= 64
            &&& forall|i: int| 0 <= i < name.len() ==> name_char(#[trigger] name[i])
            &&& !"-"@.is_prefix_of(name)
            &&& !"-"@.is_suffix_of(name)
            &&& !contains(name, "--"@)
        },
{
    lemma_wrong_char(name);
}

/// A skill that lists tools permits no tool that matches none of the entries, and one that lists
/// none permits every tool.
pub proof fn law_listed_tools_only(allowed: Seq<Seq<char>>, tool: Seq<char>)
    ensures
        allowed.len() == 0 ==> tools_permit(allowed, tool),
        allowed.len() > 0 && (forall|i: int|
            0 <= i < allowed.len() ==> #[trigger] allowed[i] != "*"@ && !name_matches(
                allowed[i],
                tool,
            )) ==> !tools_permit(allowed, tool),
        allowed.contains(tool) ==> tools_permit(allowed, tool),
{
    if allowed.contains(tool) {
        let i = choose|i: int| 0 <= i < allowed.len() && allowed[i] == tool;
        assert(name_matches(allowed[i], tool));
    }
}

/// What the metadata of a skill says of its version, author and tags counts before the fields of old
/// headers, and these count where it says nothing; everything else of the metadata stays.
pub proof fn law_metadata_counts_before_old_fields(
    m: Map<Seq<char>, Seq<char>>,
    key: Seq<char>,
    value: Option<Seq<char>>,
    other: Seq<char>,
)
    ensures
        m.contains_key(key) ==> with_default(m, key, value) == m,
        !m.contains_key(key) && value is Some ==> with_default(m, key, value).contains_key(key)
            && with_default(m, key, value)[key] == value->0,
        value is None ==> with_default(m, key, value) == m,
        other != key ==> with_default(m, key, value).contains_key(other) == m.contains_key(other)
            && (m.contains_key(other) ==> with_default(m, key, value)[other] == m[other]),
{
}

/// Every resource of a skill is told of, by its kind and its path, in order and in a line of its own.
pub proof fn law_every_resource_is_told(
    a: Seq<(Seq<char>, SkillResourceKind)>,
    b: Seq<(Seq<char>, SkillResourceKind)>,
    path: Seq<char>,
    kind: SkillResourceKind,
)
    ensures
        resource_lines(a + b) == resource_lines(a) + resource_lines(b),
        resource_lines(seq![(path, kind)]) == "\n  <file kind=\""@ + kind.name() + "\">"@ + path
            + "</file>"@,
        resource_lines(Seq::empty()) == Seq::<char>::empty(),
    decreases b.len(),
{
    if b.len() == 0 {
        assert(a + b =~= a);
        assert(resource_lines(a) + resource_lines(b) =~= resource_lines(a));
    } else {
        let t = b.drop_last();
        assert((a + b).drop_last() =~= a + t);
        law_every_resource_is_told(a, t, path, kind);
        assert(resource_lines(a + b) =~= resource_lines(a) + resource_lines(b));
    }
    let one = seq![(path, kind)];
    assert(one.drop_last() =~= Seq::<(Seq<char>, SkillResourceKind)>::empty());
    assert(resource_lines(one.drop_last()) =~= Seq::<char>::empty());
    assert(resource_lines(one) =~= "\n  <file kind=\""@ + kind.name() + "\">"@ + path
        + "</file>"@);
}

/// What an activated skill gives holds its whole instructions, up to the white space around them,
/// behind its name, and all its resources.
pub proof fn law_skill_block_is_whole(c: SkillContent<'_>)
    ensures
        ("<skill_content name=\""@ + c.descriptor.name@ + "\">\n"@ + trim(
            c.instructions@,
        )).is_prefix_of(c.block()),
        c.resources@.len() > 0 ==> contains(c.block(), resource_lines(entry_views(c.resources@))),
        c.descriptor.allowed_tools@.len() > 0 ==> contains(
            c.block(),
            join(strs(c.descriptor.allowed_tools@), ", "@),
        ),
{
    let start = "<skill_content name=\""@ + c.descriptor.name@ + "\">\n"@ + trim(c.instructions@);
    let head = start + "\n\nSkill directory: "@ + c.directory()
        + "\nRelative paths in this skill are relative to the skill directory."@;
    let tools = strs(c.descriptor.allowed_tools@);
    let intro =
        "\n\n<allowed_tools>\nThis skill declares the following preferred/allowed tools: "@;
    let outro =
        "\nRuntime enforcement currently applies to the built-in skill tools such as read_skill_resource and run_skill_script.\n</allowed_tools>"@;
    let listed = join(tools, ", "@);
    let with_tools = if tools.len() == 0 {
        head
    } else {
        head + intro + listed + outro
    };
    let entries = entry_views(c.resources@);
    let lines = resource_lines(entries);
    let open = "\n\n<skill_resources>"@;
    let close = "\n</skill_resources>"@;
    let with_resources = if entries.len() == 0 {
        with_tools
    } else {
        with_tools + open + lines + close
    };
    let end = "\n</skill_content>"@;
    let b = c.block();
    assert(b == with_resources + end);
    assert(start =~= b.take(start.len() as int));
    if entries.len() > 0 {
        let i = (with_tools.len() + open.len()) as int;
        assert(b.subrange(i, i + lines.len()) =~= lines);
        assert(occurs_at(b, lines, i));
    }
    if tools.len() > 0 {
        let i = (head.len() + intro.len()) as int;
        assert(b.subrange(i, i + listed.len()) =~= listed);
        assert(occurs_at(b, listed, i));
    }
}

/// The line of a skill in the catalog begins with its name and its description, and tells after them
/// of every path, trigger and dependency that it has.
pub proof fn law_catalog_line_is_whole(d: SkillDescriptor)
    ensures
        ("- "@ + d.name@ + ": "@ + d.description@).is_prefix_of(d.line()),
        d.paths@.len() > 0 ==> d.notes().contains("activates for: "@ + join(strs(d.paths@), ", "@)),
        d.triggers@.len() > 0 ==> d.notes().contains("triggers: "@ + join(strs(d.triggers@), ", "@)),
        d.depends_on@.len() > 0 ==> d.notes().contains(
            "depends: "@ + join(strs(d.depends_on@), ", "@),
        ),
        d.notes().len() > 0 ==> contains(d.line(), join(d.notes(), "; "@)),
        d.paths@.len() == 0 && d.triggers@.len() == 0 && d.depends_on@.len() == 0 ==> d.line()
            == "- "@ + d.name@ + ": "@ + d.description@,
{
    let head = "- "@ + d.name@ + ": "@ + d.description@;
    let line = d.line();
    assert(head =~= line.take(head.len() as int));
    let a = noted(Seq::empty(), "activates for: "@, strs(d.paths@));
    let b = noted(a, "triggers: "@, strs(d.triggers@));
    let n = noted(b, "depends: "@, strs(d.depends_on@));
    assert(n == d.notes());
    if d.paths@.len() > 0 {
        assert(n[0] == "activates for: "@ + join(strs(d.paths@), ", "@));
    }
    if d.triggers@.len() > 0 {
        assert(b.last() == "triggers: "@ + join(strs(d.triggers@), ", "@));
        assert(n[b.len() - 1] == b.last());
    }
    if d.depends_on@.len() > 0 {
        assert(n[n.len() - 1] == "depends: "@ + join(strs(d.depends_on@), ", "@));
    }
    if n.len() > 0 {
        let j = join(n, "; "@);
        let i = (head.len() + " ["@.len()) as int;
        assert(line.subrange(i, i + j.len()) =~= j);
        assert(occurs_at(line, j, i));
    }
}

/// The warnings about path patterns are those about each of them, in order. A pattern that climbs is
/// warned of; so are one with braces or brackets that do not match in number, one that is too broad,
/// and one that cannot be read; and no other is.
pub proof fn law_patterns_are_checked(a: Seq<Seq<char>>, b: Seq<Seq<char>>, p: Seq<char>)
    ensures
        all_path_warnings(a + b) == all_path_warnings(a) + all_path_warnings(b),
        all_path_warnings(seq![p]).len() == 0 <==> !contains(p, ".."@) && count_char(p, '{')
            == count_char(p, '}') && count_char(p, '[') == count_char(p, ']') && p != "**"@ && p
            != "*"@ && glob_error(p) is None,
    decreases b.len(),
{
    if b.len() == 0 {
        assert(a + b =~= a);
        assert(all_path_warnings(a) + all_path_warnings(b) =~= all_path_warnings(a));
    } else {
        assert((a + b).drop_last() =~= a + b.drop_last());
        law_patterns_are_checked(a, b.drop_last(), p);
        assert(all_path_warnings(a + b) =~= all_path_warnings(a) + all_path_warnings(b));
    }
    let one = seq![p];
    assert(one.drop_last() =~= Seq::<Seq<char>>::empty());
    assert(all_path_warnings(one.drop_last()) =~= Seq::<Seq<char>>::empty());
    assert(all_path_warnings(one) =~= path_warnings(p, glob_error(p)));
}

/// A path is compared with patterns as it is, with forward slashes and without the current directory in
/// front of it, and by its file name.
pub proof fn law_paths_are_compared_in_plain_form(path: Seq<char>)
    requires
        !path.contains('\\'),
        !"./"@.is_prefix_of(path),
    ensures
        path_forms(path).0 == path,
        path_forms(path).1 == path,
        file_name(path) is Some ==> path_forms(path).2 == file_name(path)->0,
        path_forms("./"@ + path).0 == path,
{
    reveal_strlit("./");
    reveal_strlit("\\");
    let e = Seq::<char>::empty();
    law_one_occurrence_is_replaced(path, "\\"@, e, "/"@);
    let p = "./"@ + path;
    assert forall|i: int| 0 <= i < p.len() implies p[i] != '\\' by {
        if i >= 2 {
            assert(path.contains(path[i - 2]));
        }
    }
    law_one_occurrence_is_replaced(p, "\\"@, e, "/"@);
    assert("./"@ =~= p.take(2));
    assert(p.subrange(2, p.len() as int) =~= path);
    assert(without_prefixes(path, "./"@) == path);
    assert(without_prefixes(p, "./"@) == without_prefixes(path, "./"@));
}

} // verus!
