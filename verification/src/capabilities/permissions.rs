//! MCP permission policy: which risk levels may run, on which connections.
use vstd::prelude::*;

use crate::capabilities::types::RiskLevel;
use crate::text::text_eq;

verus! {

/// Permission modes for MCP bridge access.
#[derive(Debug, Clone, Copy, PartialEq, Eq, Structural)]
pub enum McpPermissionMode {
    /// Read-only queries and metadata — only Safe capabilities
    ReadOnly,
    /// Read + write (insert, update, create) — Safe + Elevated
    DataReadWrite,
    /// Everything including destructive ops — Safe + Elevated + Destructive
    FullAccess,
}

/// The risk levels that each mode admits.
pub open spec fn mode_admits(mode: McpPermissionMode, risk: RiskLevel) -> bool {
    match mode {
        McpPermissionMode::ReadOnly => risk == RiskLevel::Safe,
        McpPermissionMode::DataReadWrite => risk == RiskLevel::Safe || risk == RiskLevel::Elevated,
        McpPermissionMode::FullAccess => true,
    }
}

impl McpPermissionMode {
    /// Whether this mode lets a capability of `risk_level` run.
    pub fn allows(&self, risk_level: RiskLevel) -> (r: bool)
        ensures
            r == mode_admits(*self, risk_level),
    {
        match self {
            McpPermissionMode::ReadOnly => matches!(risk_level, RiskLevel::Safe),
            McpPermissionMode::DataReadWrite => {
                matches!(risk_level, RiskLevel::Safe | RiskLevel::Elevated)
            },
            McpPermissionMode::FullAccess => true,
        }
    }
}

/// Per-connection override that takes precedence over the global mode.
#[derive(Debug, Clone, Copy, PartialEq, Eq, Structural)]
pub struct ConnectionMcpOverride {
    /// Read-only for MCP: blocks Elevated/Destructive regardless of global mode
    pub read_only: bool,
}

/// MCP permission policy, stored per app and read by the bridge on every request.
///
/// `connection_overrides` is keyed by connection id; where a key occurs more
/// than once, the last entry for it is the one in force (as when the entries
/// are inserted into a map in order).
#[derive(Debug, Clone)]
pub struct McpPolicy {
    pub mode: McpPermissionMode,
    /// Empty = all connections allowed; non-empty = only listed connection IDs
    pub allowed_connection_ids: Vec<String>,
    /// Connection-ID-keyed overrides that supersede the global mode
    pub connection_overrides: Vec<(String, ConnectionMcpOverride)>,
}

/// The override in force for `id` among `entries`: the last one keyed by `id`.
pub open spec fn override_in(entries: Seq<(String, ConnectionMcpOverride)>, id: Seq<char>) -> Option<
    ConnectionMcpOverride,
>
    decreases entries.len(),
{
    if entries.len() == 0 {
        None
    } else if entries.last().0@ == id {
        Some(entries.last().1)
    } else {
        override_in(entries.drop_last(), id)
    }
}

impl McpPolicy {
    /// `id` is one of the listed connection ids.
    pub open spec fn lists_connection(&self, id: Seq<char>) -> bool {
        exists|i: int| 0 <= i < self.allowed_connection_ids@.len() && #[trigger] self.allowed_connection_ids@[i]@ == id
    }

    /// The allowlist admits `id`: it is empty, or it lists `id`.
    pub open spec fn spec_connection_allowed(&self, id: Seq<char>) -> bool {
        self.allowed_connection_ids@.len() == 0 || self.lists_connection(id)
    }

    /// The override in force for `id`, if any.
    pub open spec fn override_for(&self, id: Seq<char>) -> Option<ConnectionMcpOverride> {
        override_in(self.connection_overrides@, id)
    }

    /// `id` carries a read-only override.
    pub open spec fn spec_connection_read_only(&self, id: Seq<char>) -> bool {
        match self.override_for(id) {
            Some(o) => o.read_only,
            None => false,
        }
    }

    /// The policy's decision for a capability of `risk` on `connection`.
    pub open spec fn spec_allows(&self, risk: RiskLevel, connection: Option<Seq<char>>) -> bool {
        match connection {
            Some(id) => {
                &&& self.spec_connection_allowed(id)
                &&& !(self.spec_connection_read_only(id) && risk != RiskLevel::Safe)
                &&& mode_admits(self.mode, risk)
            },
            None => mode_admits(self.mode, risk),
        }
    }

    pub fn is_connection_allowed(&self, connection_id: &str) -> (r: bool)
        ensures
            r == self.spec_connection_allowed(connection_id@),
    {
        if self.allowed_connection_ids.len() == 0 {
            return true;
        }
        let mut i: usize = 0;
        while i < self.allowed_connection_ids.len()
            invariant
                i <= self.allowed_connection_ids.len(),
                forall|j: int| 0 <= j < i ==> #[trigger] self.allowed_connection_ids@[j]@ != connection_id@,
            decreases self.allowed_connection_ids.len() - i,
        {
            if text_eq(self.allowed_connection_ids[i].as_str(), connection_id) {
                return true;
            }
            i = i + 1;
        }
        false
    }

    pub fn is_connection_read_only(&self, connection_id: &str) -> (r: bool)
        ensures
            r == self.spec_connection_read_only(connection_id@),
    {
        let mut i: usize = self.connection_overrides.len();
        assert(self.connection_overrides@.subrange(0, i as int) =~= self.connection_overrides@);
        while i > 0
            invariant
                i <= self.connection_overrides.len(),
                override_in(self.connection_overrides@, connection_id@) == override_in(
                    self.connection_overrides@.subrange(0, i as int),
                    connection_id@,
                ),
            decreases i,
        {
            let ghost prefix = self.connection_overrides@.subrange(0, i as int);
            assert(prefix.drop_last() =~= self.connection_overrides@.subrange(0, i - 1));
            if text_eq(self.connection_overrides[i - 1].0.as_str(), connection_id) {
                return self.connection_overrides[i - 1].1.read_only;
            }
            i = i - 1;
        }
        false
    }

    /// Whether a capability may run for the given connection.
    pub fn allows(&self, risk_level: RiskLevel, connection_id: Option<&str>) -> (r: bool)
        ensures
            r == self.spec_allows(
                risk_level,
                match connection_id {
                    Some(id) => Some(id@),
                    None => None,
                },
            ),
    {
        if let Some(id) = connection_id {
            if !self.is_connection_allowed(id) {
                return false;
            }
            if self.is_connection_read_only(id) && !matches!(risk_level, RiskLevel::Safe) {
                return false;
            }
        }
        self.mode.allows(risk_level)
    }
}

impl Default for McpPolicy {
    fn default() -> (p: Self)
        ensures
            p.mode == McpPermissionMode::ReadOnly,
            p.allowed_connection_ids@.len() == 0,
            p.connection_overrides@.len() == 0,
    {
        McpPolicy {
            mode: McpPermissionMode::ReadOnly,
            allowed_connection_ids: Vec::new(),
            connection_overrides: Vec::new(),
        }
    }
}

/// The modes are ordered: whatever Read Only admits, Data Read/Write admits,
/// and whatever Data Read/Write admits, Full Access admits.
pub proof fn lemma_modes_nested(risk: RiskLevel)
    ensures
        mode_admits(McpPermissionMode::ReadOnly, risk) ==> mode_admits(
            McpPermissionMode::DataReadWrite,
            risk,
        ),
        mode_admits(McpPermissionMode::DataReadWrite, risk) ==> mode_admits(
            McpPermissionMode::FullAccess,
            risk,
        ),
{
}

/// Each mode admits exactly the risk levels of its row in the mode table:
/// Read Only only Safe, Data Read/Write Safe and Elevated, Full Access all.
pub proof fn lemma_mode_table(mode: McpPermissionMode)
    ensures
        mode_admits(mode, RiskLevel::Safe),
        mode_admits(mode, RiskLevel::Elevated) <==> mode != McpPermissionMode::ReadOnly,
        mode_admits(mode, RiskLevel::Destructive) <==> mode == McpPermissionMode::FullAccess,
{
}

/// A policy never allows more than its global mode does, whatever the
/// connection.
pub proof fn lemma_policy_within_mode(
    policy: McpPolicy,
    risk: RiskLevel,
    connection: Option<Seq<char>>,
)
    ensures
        policy.spec_allows(risk, connection) ==> mode_admits(policy.mode, risk),
{
}

/// A connection outside a non-empty allowlist is refused every capability.
pub proof fn lemma_unlisted_connection_refused(policy: McpPolicy, risk: RiskLevel, id: Seq<char>)
    requires
        policy.allowed_connection_ids@.len() > 0,
        !policy.lists_connection(id),
    ensures
        !policy.spec_allows(risk, Some(id)),
{
}

/// An empty allowlist admits every connection.
pub proof fn lemma_empty_allowlist_admits_all(policy: McpPolicy, id: Seq<char>)
    requires
        policy.allowed_connection_ids@.len() == 0,
    ensures
        policy.spec_connection_allowed(id),
{
}

/// A read-only override blocks Elevated and Destructive capabilities on that
/// connection regardless of the global mode, and leaves Safe ones to the
/// allowlist and the mode.
pub proof fn lemma_read_only_override(policy: McpPolicy, risk: RiskLevel, id: Seq<char>)
    requires
        policy.spec_connection_read_only(id),
    ensures
        risk != RiskLevel::Safe ==> !policy.spec_allows(risk, Some(id)),
        policy.spec_allows(RiskLevel::Safe, Some(id)) == policy.spec_connection_allowed(id),
{
}

/// Without a connection, the global mode alone decides.
pub proof fn lemma_no_connection_mode_decides(policy: McpPolicy, risk: RiskLevel)
    ensures
        policy.spec_allows(risk, None) == mode_admits(policy.mode, risk),
{
}

/// A Safe capability on an admitted connection is always allowed.
pub proof fn lemma_safe_on_admitted_connection(policy: McpPolicy, id: Seq<char>)
    requires
        policy.spec_connection_allowed(id),
    ensures
        policy.spec_allows(RiskLevel::Safe, Some(id)),
{
}

} // verus!
