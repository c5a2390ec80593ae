//! Bead data model: statuses, types, dependency kinds and the bead record.
//!
//! Timestamps are carried as seconds since the Unix epoch, which is all the
//! ordering and display logic of this crate reads from them.

use vstd::prelude::*;
use crate::text::{dec_chars_u8, dec_of_u8, lower_of, str_eq, string_from_chars, to_lower};

verus! {

/// Error for a string that names no known enum value.
#[derive(Debug, Clone, Copy, PartialEq, Eq, Structural)]
pub struct ParseEnumError;

/// Status of a bead.
#[derive(Debug, Clone, Copy, PartialEq, Eq, Structural)]
pub enum BeadStatus {
    Open,
    InProgress,
    Blocked,
    Closed,
}

/// The status a folded status string names, if any.
pub open spec fn status_of_seq(s: Seq<char>) -> Option<BeadStatus> {
    if s == "open"@ {
        Some(BeadStatus::Open)
    } else if s == "in_progress"@ || s == "in-progress"@ || s == "inprogress"@ {
        Some(BeadStatus::InProgress)
    } else if s == "blocked"@ {
        Some(BeadStatus::Blocked)
    } else if s == "closed"@ {
        Some(BeadStatus::Closed)
    } else {
        None
    }
}

impl BeadStatus {
    /// Display icon for this status (simple unicode, no emojis).
    pub fn icon(&self) -> (r: &'static str)
        ensures
            *self == BeadStatus::Open ==> r@ == "\u{25cb}"@,
            *self == BeadStatus::InProgress ==> r@ == "\u{25cf}"@,
            *self == BeadStatus::Blocked ==> r@ == "\u{25a0}"@,
            *self == BeadStatus::Closed ==> r@ == "\u{2713}"@,
    {
        match self {
            BeadStatus::Open => "\u{25cb}",
            BeadStatus::InProgress => "\u{25cf}",
            BeadStatus::Blocked => "\u{25a0}",
            BeadStatus::Closed => "\u{2713}",
        }
    }

    /// All possible statuses, in display order.
    pub fn all() -> (r: Vec<BeadStatus>)
        ensures
            r@ == seq![
                BeadStatus::Open,
                BeadStatus::InProgress,
                BeadStatus::Blocked,
                BeadStatus::Closed,
            ],
    {
        let mut v: Vec<BeadStatus> = Vec::new();
        v.push(BeadStatus::Open);
        v.push(BeadStatus::InProgress);
        v.push(BeadStatus::Blocked);
        v.push(BeadStatus::Closed);
        assert(v@ =~= seq![
            BeadStatus::Open,
            BeadStatus::InProgress,
            BeadStatus::Blocked,
            BeadStatus::Closed,
        ]);
        v
    }

    /// The persisted name of this status.
    pub fn as_str(&self) -> (r: &'static str)
        ensures
            r@ == self.name_seq(),
    {
        match self {
            BeadStatus::Open => "open",
            BeadStatus::InProgress => "in_progress",
            BeadStatus::Blocked => "blocked",
            BeadStatus::Closed => "closed",
        }
    }

    /// The persisted name as a character sequence.
    pub open spec fn name_seq(self) -> Seq<char> {
        match self {
            BeadStatus::Open => "open"@,
            BeadStatus::InProgress => "in_progress"@,
            BeadStatus::Blocked => "blocked"@,
            BeadStatus::Closed => "closed"@,
        }
    }

    /// Rank used when ordering a loaded collection: in-progress work first,
    /// then open, then blocked, with closed beads at the end.
    pub open spec fn rank_spec(self) -> u8 {
        match self {
            BeadStatus::InProgress => 0u8,
            BeadStatus::Open => 1u8,
            BeadStatus::Blocked => 2u8,
            BeadStatus::Closed => 3u8,
        }
    }

    /// Exec rank matching `rank_spec`.
    pub fn rank(&self) -> (r: u8)
        ensures
            r == self.rank_spec(),
    {
        match self {
            BeadStatus::InProgress => 0u8,
            BeadStatus::Open => 1u8,
            BeadStatus::Blocked => 2u8,
            BeadStatus::Closed => 3u8,
        }
    }
}

/// Parse a status name, ignoring case; `None` when unknown.
pub fn parse_status(s: &str) -> (r: Option<BeadStatus>)
    ensures
        r == status_of_seq(lower_of(s@)),
{
    let low = to_lower(s);
    let l = low.as_str();
    if str_eq(l, "open") {
        Some(BeadStatus::Open)
    } else if str_eq(l, "in_progress") || str_eq(l, "in-progress") || str_eq(l, "inprogress") {
        Some(BeadStatus::InProgress)
    } else if str_eq(l, "blocked") {
        Some(BeadStatus::Blocked)
    } else if str_eq(l, "closed") {
        Some(BeadStatus::Closed)
    } else {
        None
    }
}

impl core::str::FromStr for BeadStatus {
    type Err = ParseEnumError;

    fn from_str(s: &str) -> Result<Self, Self::Err> {
        match parse_status(s) {
            Some(v) => Ok(v),
            None => Err(ParseEnumError),
        }
    }
}

/// Type of a bead.
#[derive(Debug, Clone, Copy, PartialEq, Eq, Structural)]
pub enum BeadType {
    Task,
    Bug,
    Feature,
    Epic,
    Story,
}

/// The type a folded type string names, if any.
pub open spec fn type_of_seq(s: Seq<char>) -> Option<BeadType> {
    if s == "task"@ {
        Some(BeadType::Task)
    } else if s == "bug"@ {
        Some(BeadType::Bug)
    } else if s == "feature"@ {
        Some(BeadType::Feature)
    } else if s == "epic"@ {
        Some(BeadType::Epic)
    } else if s == "story"@ {
        Some(BeadType::Story)
    } else {
        None
    }
}

impl BeadType {
    /// Outline (open/blocked) icon for this type.
    pub fn icon_outline(&self) -> (r: &'static str)
        ensures
            *self == BeadType::Task ==> r@ == "\u{25b7}"@,
            *self == BeadType::Bug ==> r@ == "\u{2298}"@,
            *self == BeadType::Feature ==> r@ == "\u{2606}"@,
            *self == BeadType::Epic ==> r@ == "\u{25c7}"@,
            *self == BeadType::Story ==> r@ == "\u{2630}"@,
    {
        match self {
            BeadType::Task => "\u{25b7}",
            BeadType::Bug => "\u{2298}",
            BeadType::Feature => "\u{2606}",
            BeadType::Epic => "\u{25c7}",
            BeadType::Story => "\u{2630}",
        }
    }

    /// Filled (in-progress) icon for this type.
    pub fn icon_filled(&self) -> (r: &'static str)
        ensures
            *self == BeadType::Task ==> r@ == "\u{25b6}"@,
            *self == BeadType::Bug ==> r@ == "\u{25cf}"@,
            *self == BeadType::Feature ==> r@ == "\u{2605}"@,
            *self == BeadType::Epic ==> r@ == "\u{25c6}"@,
            *self == BeadType::Story ==> r@ == "\u{25e4}"@,
    {
        match self {
            BeadType::Task => "\u{25b6}",
            BeadType::Bug => "\u{25cf}",
            BeadType::Feature => "\u{2605}",
            BeadType::Epic => "\u{25c6}",
            BeadType::Story => "\u{25e4}",
        }
    }

    /// Closed (done) icon for this type.
    pub fn icon_closed(&self) -> (r: &'static str)
        ensures
            *self == BeadType::Task ==> r@ == "\u{25b6}"@,
            *self == BeadType::Bug ==> r@ == "\u{25cf}"@,
            *self == BeadType::Feature ==> r@ == "\u{2605}"@,
            *self == BeadType::Epic ==> r@ == "\u{25c6}"@,
            *self == BeadType::Story ==> r@ == "\u{25a0}"@,
    {
        match self {
            BeadType::Task => "\u{25b6}",
            BeadType::Bug => "\u{25cf}",
            BeadType::Feature => "\u{2605}",
            BeadType::Epic => "\u{25c6}",
            BeadType::Story => "\u{25a0}",
        }
    }

    /// Icon selected by status: outline when open or blocked, filled when in
    /// progress, closed variant when closed.
    pub fn icon_for_status(&self, status: &BeadStatus) -> (r: &'static str)
        ensures
            (*status == BeadStatus::Open || *status == BeadStatus::Blocked) ==> r@
                == self.icon_outline_seq(),
            *status == BeadStatus::InProgress ==> r@ == self.icon_filled_seq(),
            *status == BeadStatus::Closed ==> r@ == self.icon_closed_seq(),
    {
        match status {
            BeadStatus::Open => self.icon_outline(),
            BeadStatus::InProgress => self.icon_filled(),
            BeadStatus::Blocked => self.icon_outline(),
            BeadStatus::Closed => self.icon_closed(),
        }
    }

    /// The outline icon as a character sequence.
    pub open spec fn icon_outline_seq(self) -> Seq<char> {
        match self {
            BeadType::Task => "\u{25b7}"@,
            BeadType::Bug => "\u{2298}"@,
            BeadType::Feature => "\u{2606}"@,
            BeadType::Epic => "\u{25c7}"@,
            BeadType::Story => "\u{2630}"@,
        }
    }

    /// The filled icon as a character sequence.
    pub open spec fn icon_filled_seq(self) -> Seq<char> {
        match self {
            BeadType::Task => "\u{25b6}"@,
            BeadType::Bug => "\u{25cf}"@,
            BeadType::Feature => "\u{2605}"@,
            BeadType::Epic => "\u{25c6}"@,
            BeadType::Story => "\u{25e4}"@,
        }
    }

    /// The closed icon as a character sequence.
    pub open spec fn icon_closed_seq(self) -> Seq<char> {
        match self {
            BeadType::Task => "\u{25b6}"@,
            BeadType::Bug => "\u{25cf}"@,
            BeadType::Feature => "\u{2605}"@,
            BeadType::Epic => "\u{25c6}"@,
            BeadType::Story => "\u{25a0}"@,
        }
    }

    /// The persisted name of this type.
    pub fn as_str(&self) -> (r: &'static str)
        ensures
            r@ == self.name_seq(),
    {
        match self {
            BeadType::Task => "task",
            BeadType::Bug => "bug",
            BeadType::Feature => "feature",
            BeadType::Epic => "epic",
            BeadType::Story => "story",
        }
    }

    /// The persisted name as a character sequence.
    pub open spec fn name_seq(self) -> Seq<char> {
        match self {
            BeadType::Task => "task"@,
            BeadType::Bug => "bug"@,
            BeadType::Feature => "feature"@,
            BeadType::Epic => "epic"@,
            BeadType::Story => "story"@,
        }
    }
}

/// Parse a type name, ignoring case; `None` when unknown.
pub fn parse_type(s: &str) -> (r: Option<BeadType>)
    ensures
        r == type_of_seq(lower_of(s@)),
{
    let low = to_lower(s);
    let l = low.as_str();
    if str_eq(l, "task") {
        Some(BeadType::Task)
    } else if str_eq(l, "bug") {
        Some(BeadType::Bug)
    } else if str_eq(l, "feature") {
        Some(BeadType::Feature)
    } else if str_eq(l, "epic") {
        Some(BeadType::Epic)
    } else if str_eq(l, "story") {
        Some(BeadType::Story)
    } else {
        None
    }
}

impl core::str::FromStr for BeadType {
    type Err = ParseEnumError;

    fn from_str(s: &str) -> Result<Self, Self::Err> {
        match parse_type(s) {
            Some(v) => Ok(v),
            None => Err(ParseEnumError),
        }
    }
}

/// Kind of dependency between beads.
#[derive(Debug, Clone, Copy, PartialEq, Eq, Structural)]
pub enum DependencyType {
    Blocks,
    ParentChild,
    Related,
}

/// The dependency kind a folded string names, if any.
pub open spec fn dep_type_of_seq(s: Seq<char>) -> Option<DependencyType> {
    if s == "blocks"@ {
        Some(DependencyType::Blocks)
    } else if s == "parent-child"@ || s == "parent_child"@ {
        Some(DependencyType::ParentChild)
    } else if s == "related"@ {
        Some(DependencyType::Related)
    } else {
        None
    }
}

impl DependencyType {
    /// The persisted name of this dependency kind.
    pub fn as_str(&self) -> (r: &'static str)
        ensures
            *self == DependencyType::Blocks ==> r@ == "blocks"@,
            *self == DependencyType::ParentChild ==> r@ == "parent-child"@,
            *self == DependencyType::Related ==> r@ == "related"@,
    {
        match self {
            DependencyType::Blocks => "blocks",
            DependencyType::ParentChild => "parent-child",
            DependencyType::Related => "related",
        }
    }
}

/// Parse a dependency kind, ignoring case; `None` when unknown.
pub fn parse_dep_type(s: &str) -> (r: Option<DependencyType>)
    ensures
        r == dep_type_of_seq(lower_of(s@)),
{
    let low = to_lower(s);
    let l = low.as_str();
    if str_eq(l, "blocks") {
        Some(DependencyType::Blocks)
    } else if str_eq(l, "parent-child") || str_eq(l, "parent_child") {
        Some(DependencyType::ParentChild)
    } else if str_eq(l, "related") {
        Some(DependencyType::Related)
    } else {
        None
    }
}

impl core::str::FromStr for DependencyType {
    type Err = ParseEnumError;

    fn from_str(s: &str) -> Result<Self, Self::Err> {
        match parse_dep_type(s) {
            Some(v) => Ok(v),
            None => Err(ParseEnumError),
        }
    }
}

/// A comment on a bead.
pub struct Comment {
    /// Comment author.
    pub author: String,
    /// Comment text.
    pub text: String,
    /// When the comment was created, seconds since the Unix epoch.
    pub created_at: Option<i64>,
}

/// A dependency relationship.
pub struct Dependency {
    /// The bead that depends on another.
    pub from_id: String,
    /// The bead being depended on.
    pub to_id: String,
    /// Kind of dependency.
    pub dep_type: DependencyType,
}

/// A bead (issue) in the system.
pub struct Bead {
    /// Unique identifier.
    pub id: String,
    /// Short title.
    pub title: String,
    /// Current status.
    pub status: BeadStatus,
    /// Priority (0 = critical, 4 = backlog).
    pub priority: u8,
    /// Type of bead.
    pub bead_type: BeadType,
    /// Full description.
    pub description: Option<String>,
    /// Labels.
    pub labels: Vec<String>,
    /// Who created this bead.
    pub created_by: Option<String>,
    /// Who is assigned to this bead.
    pub assignee: Option<String>,
    /// When created, seconds since the Unix epoch.
    pub created_at: Option<i64>,
    /// When last updated.
    pub updated_at: Option<i64>,
    /// When closed (if closed).
    pub closed_at: Option<i64>,
    /// Reason for closing.
    pub close_reason: Option<String>,
    /// Parent bead ids (from parent-child dependencies).
    pub parent_ids: Vec<String>,
    /// Beads that block this one.
    pub blocked_by: Vec<String>,
    /// Beads that this one blocks.
    pub blocks: Vec<String>,
    /// Comments on this bead.
    pub comments: Vec<Comment>,
}

/// The bead carries the "deferred" label.
pub open spec fn spec_is_deferred(b: &Bead) -> bool {
    exists|i: int| 0 <= i < b.labels@.len() && (#[trigger] b.labels@[i])@ == "deferred"@
}

impl Bead {
    /// The bead is blocked: either by status or by an open blocker list.
    pub fn is_blocked(&self) -> (r: bool)
        ensures
            r == (self.status == BeadStatus::Blocked || self.blocked_by@.len() > 0),
    {
        self.status == BeadStatus::Blocked || self.blocked_by.len() > 0
    }

    /// Priority label, a 'P' followed by the decimal priority.
    pub fn priority_label(&self) -> (r: String)
        ensures
            r@ == seq!['P'] + dec_of_u8(self.priority),
    {
        let digits = dec_chars_u8(self.priority);
        let mut v: Vec<char> = Vec::new();
        v.push('P');
        let mut i: usize = 0;
        while i < digits.len()
            invariant
                0 <= i <= digits@.len(),
                v@ == seq!['P'] + digits@.take(i as int),
            decreases digits@.len() - i,
        {
            v.push(digits[i]);
            assert(v@ =~= seq!['P'] + digits@.take(i + 1 as int));
            i = i + 1;
        }
        assert(v@ =~= seq!['P'] + digits@);
        string_from_chars(&v)
    }

    /// The bead carries the "deferred" label.
    pub fn is_deferred(&self) -> (r: bool)
        ensures
            r == spec_is_deferred(self),
    {
        let mut i: usize = 0;
        while i < self.labels.len()
            invariant
                0 <= i <= self.labels@.len(),
                forall|j: int| 0 <= j < i ==> (#[trigger] self.labels@[j])@ != "deferred"@,
            decreases self.labels@.len() - i,
        {
            if str_eq(self.labels[i].as_str(), "deferred") {
                return true;
            }
            i = i + 1;
        }
        false
    }
}

impl Default for Bead {
    /// An empty open task of priority 2, the form's starting point.
    fn default() -> (r: Self)
        ensures
            r.id@ == Seq::<char>::empty(),
            r.title@ == Seq::<char>::empty(),
            r.status == BeadStatus::Open,
            r.priority == 2u8,
            r.bead_type == BeadType::Task,
            r.description is None,
            r.labels@.len() == 0,
            r.created_by is None,
            r.assignee is None,
            r.created_at is None,
            r.updated_at is None,
            r.closed_at is None,
            r.close_reason is None,
            r.parent_ids@.len() == 0,
            r.blocked_by@.len() == 0,
            r.blocks@.len() == 0,
            r.comments@.len() == 0,
    {
        Bead {
            id: String::new(),
            title: String::new(),
            status: BeadStatus::Open,
            priority: 2,
            bead_type: BeadType::Task,
            description: None,
            labels: Vec::new(),
            created_by: None,
            assignee: None,
            created_at: None,
            updated_at: None,
            closed_at: None,
            close_reason: None,
            parent_ids: Vec::new(),
            blocked_by: Vec::new(),
            blocks: Vec::new(),
            comments: Vec::new(),
        }
    }
}

} // verus!
