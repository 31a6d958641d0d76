//! Memories: what kind they are, how far they can be trusted, and how they are stored.

use vstd::prelude::*;
use crate::error::MemoryError;
use crate::json::Json;

verus! {

/// What a memory is about.
#[derive(Debug, Clone, Copy, PartialEq, Eq, Structural)]
pub enum MemoryType {
    /// What the user prefers.
    UserPreference,
    /// A fact about the project.
    ProjectFact,
    /// A decision on architecture or product.
    ArchitectureDecision,
    /// A lesson from debugging.
    DebuggingLesson,
    /// An error and what solved it.
    ErrorResolution,
    /// A command that is used often.
    CommandPattern,
    /// Experience with a tool.
    ToolUsage,
    /// A way of working that comes up again.
    WorkflowPattern,
    /// A way of working that may become a skill.
    SkillCandidate,
    /// A note that no longer holds.
    DeprecatedNote,
}

impl MemoryType {
    /// Whether a memory of this kind may become a skill.
    pub open spec fn may_become_skill(&self) -> bool {
        self is WorkflowPattern || self is SkillCandidate || self is DebuggingLesson
    }

    /// Whether a memory of this kind may become a rule.
    pub open spec fn may_become_rule(&self) -> bool {
        self is UserPreference || self is ArchitectureDecision || self is ProjectFact
    }

    /// Whether a memory of this kind may become a skill.
    pub fn is_skill_eligible(&self) -> (r: bool)
        ensures
            r == self.may_become_skill(),
    {
        match self {
            MemoryType::WorkflowPattern
            | MemoryType::SkillCandidate
            | MemoryType::DebuggingLesson => true,
            _ => false,
        }
    }

    /// Whether a memory of this kind may become a rule.
    pub fn is_rule_eligible(&self) -> (r: bool)
        ensures
            r == self.may_become_rule(),
    {
        match self {
            MemoryType::UserPreference
            | MemoryType::ArchitectureDecision
            | MemoryType::ProjectFact => true,
            _ => false,
        }
    }
}

/// How risky a memory is.
#[derive(Debug, Clone, Copy, PartialEq, Eq, Structural)]
pub enum MemoryRisk {
    Low,
    Medium,
    High,
}

impl Default for MemoryRisk {
    fn default() -> (r: MemoryRisk)
        ensures
            r == MemoryRisk::Low,
    {
        MemoryRisk::Low
    }
}

/// How far a memory is in its life.
#[derive(Debug, Clone, Copy, PartialEq, Eq, Structural)]
pub enum MemoryStatus {
    Draft,
    Active,
    Superseded,
    Archived,
}

impl Default for MemoryStatus {
    fn default() -> (r: MemoryStatus)
        ensures
            r == MemoryStatus::Active,
    {
        MemoryStatus::Active
    }
}

/// Where a memory comes from.
#[derive(Debug, Clone, Copy, PartialEq, Eq, Structural)]
pub enum MemorySource {
    UserCorrection,
    ErrorResolution,
    RepeatedWorkflow,
    ExplicitSave,
    AutoExtracted,
    L3Promotion,
}

/// What decides on a memory, besides how confident and how stable it is.
pub struct MemoryFacts {
    pub memory_type: MemoryType,
    pub risk: MemoryRisk,
    pub status: MemoryStatus,
    pub source: MemorySource,
    pub topic: String,
    pub revision_count: u32,
    pub superseded_by: Option<String>,
}

impl MemoryFacts {
    /// The facts of a new memory: active, of low risk, and never revised.
    pub fn new(memory_type: MemoryType, source: MemorySource, topic: &str) -> (r: MemoryFacts)
        ensures
            r.memory_type == memory_type,
            r.source == source,
            r.topic@ == topic@,
            r.risk == MemoryRisk::Low,
            r.status == MemoryStatus::Active,
            r.revision_count == 0,
            r.superseded_by is None,
    {
        MemoryFacts {
            memory_type,
            risk: MemoryRisk::default(),
            status: MemoryStatus::default(),
            source,
            topic: topic.to_owned(),
            revision_count: 0,
            superseded_by: None,
        }
    }

    /// The facts with another risk.
    pub fn with_risk(self, risk: MemoryRisk) -> (r: MemoryFacts)
        ensures
            r == (MemoryFacts { risk, ..self }),
    {
        let mut r = self;
        r.risk = risk;
        r
    }

    /// The facts with another status.
    pub fn with_status(self, status: MemoryStatus) -> (r: MemoryFacts)
        ensures
            r == (MemoryFacts { status, ..self }),
    {
        let mut r = self;
        r.status = status;
        r
    }

    /// Whether a memory is put before the model at once, given whether it is confident and stable
    /// enough: where it is active and not of high risk.
    pub open spec fn is_hot(&self, confident: bool, stable: bool) -> bool {
        confident && stable && self.status == MemoryStatus::Active && self.risk != MemoryRisk::High
    }

    /// Whether a memory becomes a rule, given whether it is confident and stable enough: where it
    /// was besides never revised and its kind allows it.
    pub open spec fn is_rule(&self, confident: bool, stable: bool) -> bool {
        self.is_hot(confident, stable) && self.revision_count == 0
            && self.memory_type.may_become_rule()
    }

    /// Whether a memory is put before the model at once.
    pub fn hot_eligible(&self, confident: bool, stable: bool) -> (r: bool)
        ensures
            r == self.is_hot(confident, stable),
    {
        confident && stable && self.status == MemoryStatus::Active && self.risk != MemoryRisk::High
    }

    /// Whether a memory becomes a rule.
    pub fn rule_eligible(&self, confident: bool, stable: bool) -> (r: bool)
        ensures
            r == self.is_rule(confident, stable),
    {
        confident && stable && self.status == MemoryStatus::Active && self.revision_count == 0
            && self.risk != MemoryRisk::High && self.memory_type.is_rule_eligible()
    }
}

// ── Store ───────────────────────────────────────────────────────────────────────────────────

/// A record of the store.
pub struct StoreItem {
    pub namespace: Vec<String>,
    pub key: String,
    pub value: Json,
    /// When the record was made, in seconds.
    pub created_at: u64,
    /// When the record was changed, in seconds.
    pub updated_at: u64,
    /// When the record was last read, in seconds.
    pub last_accessed: Option<u64>,
    /// When the record may go, in seconds; never where it is not set.
    pub expires_at: Option<u64>,
}

impl StoreItem {
    /// A record that is made now.
    pub fn new(namespace: Vec<String>, key: String, value: Json, now: u64) -> (r: StoreItem)
        ensures
            r == (StoreItem {
                namespace,
                key,
                value,
                created_at: now,
                updated_at: now,
                last_accessed: None,
                expires_at: None,
            }),
    {
        StoreItem {
            namespace,
            key,
            value,
            created_at: now,
            updated_at: now,
            last_accessed: None,
            expires_at: None,
        }
    }

    /// A record that is made now and may go after so many seconds; at the end of time at the
    /// latest.
    pub fn with_ttl(
        namespace: Vec<String>,
        key: String,
        value: Json,
        ttl_secs: u64,
        now: u64,
    ) -> (r: StoreItem)
        ensures
            r == (StoreItem {
                namespace,
                key,
                value,
                created_at: now,
                updated_at: now,
                last_accessed: None,
                expires_at: Some(
                    if now + ttl_secs > u64::MAX {
                        u64::MAX
                    } else {
                        (now + ttl_secs) as u64
                    },
                ),
            }),
    {
        let mut r = StoreItem::new(namespace, key, value, now);
        r.expires_at = Some(now.saturating_add(ttl_secs));
        r
    }

    /// Notes that the record was read now.
    pub fn touch(&mut self, now: u64)
        ensures
            *final(self) == (StoreItem { last_accessed: Some(now), ..*old(self) }),
    {
        self.last_accessed = Some(now);
    }
}

/// What clearing a store has done.
#[derive(Debug, Clone, Copy, PartialEq, Eq, Structural)]
pub struct PruneResult {
    /// Number of records that went.
    pub removed: u64,
    /// Number of records that were looked at.
    pub checked: u64,
}

impl Default for PruneResult {
    fn default() -> (r: PruneResult)
        ensures
            r == (PruneResult { removed: 0, checked: 0 }),
    {
        PruneResult { removed: 0, checked: 0 }
    }
}

/// How a store is searched.
#[derive(Debug, Clone, Copy, PartialEq, Eq, Structural)]
pub enum SearchMode {
    /// By words.
    Keyword,
    /// By meaning.
    Semantic,
    /// By both.
    Hybrid,
}

/// A search.
pub struct SearchQuery<'a> {
    pub text: &'a str,
    /// How many records at most.
    pub limit: usize,
    pub mode: SearchMode,
}

impl<'a> SearchQuery<'a> {
    /// A search by words.
    pub fn keyword(text: &'a str, limit: usize) -> (r: SearchQuery<'a>)
        ensures
            r.text@ == text@,
            r.limit == limit,
            r.mode == SearchMode::Keyword,
    {
        SearchQuery { text, limit, mode: SearchMode::Keyword }
    }

    /// A search by meaning.
    pub fn semantic(text: &'a str, limit: usize) -> (r: SearchQuery<'a>)
        ensures
            r.text@ == text@,
            r.limit == limit,
            r.mode == SearchMode::Semantic,
    {
        SearchQuery { text, limit, mode: SearchMode::Semantic }
    }

    /// A search by both.
    pub fn hybrid(text: &'a str, limit: usize) -> (r: SearchQuery<'a>)
        ensures
            r.text@ == text@,
            r.limit == limit,
            r.mode == SearchMode::Hybrid,
    {
        SearchQuery { text, limit, mode: SearchMode::Hybrid }
    }
}

/// Checks that a store that is searched by words only can do a search.
pub fn check_search_mode(mode: SearchMode) -> (r: Result<(), MemoryError>)
    ensures
        match r {
            Ok(_) => mode == SearchMode::Keyword,
            Err(e) => mode != SearchMode::Keyword && (e matches MemoryError::Unsupported(m) && m@
                == if mode == SearchMode::Semantic {
                "semantic search is not supported by this Store"@
            } else {
                "hybrid search is not supported by this Store"@
            }),
        },
{
    match mode {
        SearchMode::Keyword => Ok(()),
        SearchMode::Semantic => Err(
            MemoryError::Unsupported("semantic search is not supported by this Store".to_owned()),
        ),
        SearchMode::Hybrid => Err(
            MemoryError::Unsupported("hybrid search is not supported by this Store".to_owned()),
        ),
    }
}

// ── Laws ────────────────────────────────────────────────────────────────────────────────────

/// A memory of high risk is neither put before the model nor made a rule, however confident and
/// stable it is; and what becomes a rule could be put before the model.
pub proof fn law_high_risk_is_held_back(f: MemoryFacts, confident: bool, stable: bool)
    ensures
        f.risk == MemoryRisk::High ==> !f.is_hot(confident, stable) && !f.is_rule(confident, stable),
        f.is_rule(confident, stable) ==> f.is_hot(confident, stable),
{
}

/// A memory becomes hot exactly where it is active, sure and stable and not of high risk. It becomes a
/// rule exactly where, besides, it was never revised and is a preference, a decision or a fact.
pub proof fn law_promotion_has_its_conditions(f: MemoryFacts, confident: bool, stable: bool)
    ensures
        f.is_hot(confident, stable) <==> confident && stable && f.status == MemoryStatus::Active
            && f.risk != MemoryRisk::High,
        f.is_rule(confident, stable) <==> confident && stable && f.status == MemoryStatus::Active
            && f.risk != MemoryRisk::High && f.revision_count == 0 && (f.memory_type is UserPreference
            || f.memory_type is ArchitectureDecision || f.memory_type is ProjectFact),
        f.memory_type.may_become_skill() <==> f.memory_type is WorkflowPattern
            || f.memory_type is SkillCandidate || f.memory_type is DebuggingLesson,
{
}

} // verus!
