//! The records of the resource ledger: classes, pools, holdings and cleanup obligations, and
//! the names under which their kinds are stored.

use crate::error::{joined_text, KernelError, Refusal};
use crate::strmap::StrSet;
use crate::text::{decimal, push_decimal, same};
use vstd::prelude::*;

verus! {

/// What must be cleaned up when a holding of a class is retired.
#[derive(Debug, Clone, Copy, PartialEq, Eq, Structural)]
pub enum CleanupKind {
    Process,
    FileLock,
    Port,
    Subscription,
    Plugin,
    Provider,
}

/// Whether a class stands for something in the world.
#[derive(Debug, Clone, Copy, PartialEq, Eq, Structural)]
pub enum CleanupPolicy {
    AccountingOnly,
    Managed(CleanupKind),
}

/// How the fragments of a class compose.
#[derive(Debug, Clone, Copy, PartialEq, Eq, Structural)]
pub enum AlgebraTag {
    Exclusive,
    Counted,
    SetOf,
    Range,
    Frac,
}

/// How a release can be undone.
#[derive(Debug, Clone, Copy, PartialEq, Eq, Structural)]
pub enum RevertGrade {
    Inverse,
    Compensable,
    External,
}

/// The state of an entry of the historical journal.
#[derive(Debug, Clone, Copy, PartialEq, Eq, Structural)]
pub enum JournalState {
    Pending,
    InFlight,
    Done,
    Failed,
}

/// A transport of a port.
#[derive(Debug, Clone, Copy, PartialEq, Eq, Structural)]
pub enum Transport {
    Tcp,
    Udp,
}

/// One incarnation of a process: its number, when it started, and in which boot.
#[derive(Debug, PartialEq, Eq)]
pub struct ProcessWitness {
    pub pid: u32,
    pub start_ticks: u64,
    pub boot: String,
}

/// One session of a host process.
#[derive(Debug, PartialEq, Eq)]
pub struct HostWitness {
    pub process: ProcessWitness,
    pub session: String,
}

/// What stands behind a holding in the world.
#[derive(Debug, PartialEq, Eq)]
pub enum CleanupTarget {
    AccountingOnly,
    Process(ProcessWitness),
    FileLock { path: String, device: u64, inode: u64, owner: Option<ProcessWitness> },
    Port { transport: Transport, port: u16 },
    Subscription { host: HostWitness, subscription: u64 },
    Plugin { host: HostWitness, process: ProcessWitness },
    Provider,
    Unresolved { kind: CleanupKind, reason: String },
}

/// How a cleanup was discharged.
#[derive(Debug, Clone, Copy, PartialEq, Eq, Structural)]
pub enum Completion {
    Confirmed,
    AlreadyAbsent,
}

/// The state of a cleanup obligation.
#[derive(Debug, PartialEq, Eq)]
pub enum CleanupState {
    Pending,
    Running { worker: HostWitness },
    Retryable(String),
    Unknown(String),
    Blocked(String),
    Done(Completion),
}

/// A cleanup obligation.
#[derive(Debug, PartialEq, Eq)]
pub struct CleanupRecord {
    pub id: u64,
    pub key: String,
    pub holding: u64,
    pub generation: String,
    pub state: CleanupState,
    pub attempts: u64,
    pub requested_at: u64,
    pub updated_at: u64,
}

/// The state of a holding. One that is being retired still occupies its resource.
#[derive(Debug, Clone, Copy, PartialEq, Eq, Structural)]
pub enum HoldingState {
    Active,
    /// Under the cleanup obligation of this identity.
    Retiring(u64),
    /// At this time.
    Retired(u64),
}

/// How long a holding lasts.
#[derive(Debug, Clone, Copy, PartialEq, Eq, Structural)]
pub enum Lease {
    Until(u64),
    ParentBound,
    Unbounded,
}

/// A fragment of a resource, as it is stored.
#[derive(Debug, PartialEq, Eq)]
pub enum Frag {
    /// The token of an exclusive resource, or the invalid element.
    Ex { token: bool },
    /// A count, or the invalid element.
    Count(Option<u64>),
    SetOf(StrSet),
    /// Spans of a range, or the invalid element.
    Range { spans: Vec<(u64, u64)>, bot: bool },
    /// A fraction by its parts in lowest terms, in decimal notation; nothing over nothing is the
    /// invalid element.
    Frac { num: String, den: String },
}

/// The declaration of a class.
#[derive(Debug, PartialEq, Eq)]
pub struct ClassDecl {
    pub class_id: String,
    pub algebra: AlgebraTag,
    pub release_idempotent: bool,
    pub lease_duration: Option<u64>,
    pub revert_grade: RevertGrade,
    pub cleanup: CleanupPolicy,
}

/// The capacity of an instance of a class.
#[derive(Debug, PartialEq, Eq)]
pub struct PoolRecord {
    pub class_id: String,
    pub instance: String,
    pub capacity: Frag,
}

/// A holding.
#[derive(Debug, PartialEq, Eq)]
pub struct HoldingRecord {
    pub id: u64,
    pub subject: String,
    pub class_id: String,
    pub instance: String,
    pub frag: Frag,
    pub generation: String,
    pub parent: Option<u64>,
    pub lease: Lease,
    pub acquired_at: u64,
    pub state: HoldingState,
    pub target: CleanupTarget,
}

/// Everything that the ledger stores.
#[derive(Debug)]
pub struct Snapshot {
    pub classes: Vec<ClassDecl>,
    pub pools: Vec<PoolRecord>,
    /// The subjects that were created by others.
    pub instantiations: Vec<(String, String)>,
    pub holdings: Vec<HoldingRecord>,
    pub cleanups: Vec<CleanupRecord>,
}

impl HoldingState {
    /// Whether the resource is occupied.
    pub open spec fn spec_occupies(self) -> bool {
        !(self is Retired)
    }

    /// Whether the resource is occupied.
    pub fn occupies(&self) -> (b: bool)
        ensures
            b == self.spec_occupies(),
    {
        match self {
            HoldingState::Retired(_) => false,
            _ => true,
        }
    }

    /// Whether the holding is in use.
    pub fn is_active(&self) -> (b: bool)
        ensures
            b == (*self is Active),
    {
        match self {
            HoldingState::Active => true,
            _ => false,
        }
    }

    /// Whether the holding is being retired.
    pub fn is_retiring(&self) -> (b: bool)
        ensures
            b == (*self is Retiring),
    {
        match self {
            HoldingState::Retiring(_) => true,
            _ => false,
        }
    }
}

impl CleanupState {
    /// Whether the obligation is discharged.
    pub fn is_done(&self) -> (b: bool)
        ensures
            b == (self is Done),
    {
        match self {
            CleanupState::Done(_) => true,
            _ => false,
        }
    }
}

/// An error of the storage of resources.
pub open spec fn storage_fault(detail: Seq<char>) -> Refusal {
    Refusal::Corrupt("resource storage: "@ + detail)
}

/// An error of the storage of resources.
pub fn corrupt(detail: &str) -> (e: KernelError)
    ensures
        e@ == storage_fault(detail@),
{
    KernelError::Corrupt(joined_text("resource storage: ", detail))
}

/// The name of a kind.
pub open spec fn kind_text(k: CleanupKind) -> Seq<char> {
    match k {
        CleanupKind::Process => "process"@,
        CleanupKind::FileLock => "file_lock"@,
        CleanupKind::Port => "port"@,
        CleanupKind::Subscription => "subscription"@,
        CleanupKind::Plugin => "plugin"@,
        CleanupKind::Provider => "provider"@,
    }
}

/// The name of a kind.
pub fn kind_name(k: CleanupKind) -> (s: &'static str)
    ensures
        s@ == kind_text(k),
{
    match k {
        CleanupKind::Process => "process",
        CleanupKind::FileLock => "file_lock",
        CleanupKind::Port => "port",
        CleanupKind::Subscription => "subscription",
        CleanupKind::Plugin => "plugin",
        CleanupKind::Provider => "provider",
    }
}

/// The kind of a name.
pub fn kind(s: &str) -> (r: Result<CleanupKind, KernelError>)
    ensures
        match r {
            Ok(k) => s@ == kind_text(k),
            Err(e) => {
                &&& forall|k: CleanupKind| s@ != #[trigger] kind_text(k)
                &&& e@ == storage_fault("unknown cleanup kind "@ + s@)
            },
        },
{
    if same(s, "process") {
        Ok(CleanupKind::Process)
    } else if same(s, "file_lock") {
        Ok(CleanupKind::FileLock)
    } else if same(s, "port") {
        Ok(CleanupKind::Port)
    } else if same(s, "subscription") {
        Ok(CleanupKind::Subscription)
    } else if same(s, "plugin") {
        Ok(CleanupKind::Plugin)
    } else if same(s, "provider") {
        Ok(CleanupKind::Provider)
    } else {
        Err(corrupt(joined_text("unknown cleanup kind ", s).as_str()))
    }
}

/// The name of a policy.
pub open spec fn policy_text(p: CleanupPolicy) -> Seq<char> {
    match p {
        CleanupPolicy::AccountingOnly => "accounting_only"@,
        CleanupPolicy::Managed(k) => kind_text(k),
    }
}

/// The name of a policy.
pub fn policy_name(p: CleanupPolicy) -> (s: &'static str)
    ensures
        s@ == policy_text(p),
{
    match p {
        CleanupPolicy::AccountingOnly => "accounting_only",
        CleanupPolicy::Managed(k) => kind_name(k),
    }
}

/// The policy of a name.
pub fn policy(s: &str) -> (r: Result<CleanupPolicy, KernelError>)
    ensures
        match r {
            Ok(p) => s@ == policy_text(p),
            Err(e) => {
                &&& forall|p: CleanupPolicy| s@ != #[trigger] policy_text(p)
                &&& e@ == storage_fault("unknown cleanup kind "@ + s@)
            },
        },
{
    if same(s, "accounting_only") {
        Ok(CleanupPolicy::AccountingOnly)
    } else {
        match kind(s) {
            Ok(k) => Ok(CleanupPolicy::Managed(k)),
            Err(e) => {
                assert forall|p: CleanupPolicy| s@ != #[trigger] policy_text(p) by {
                    match p {
                        CleanupPolicy::AccountingOnly => {},
                        CleanupPolicy::Managed(k) => {
                            assert(s@ != kind_text(k));
                        },
                    }
                }
                Err(e)
            },
        }
    }
}

/// The name of an algebra.
pub open spec fn algebra_text(t: AlgebraTag) -> Seq<char> {
    match t {
        AlgebraTag::Exclusive => "exclusive"@,
        AlgebraTag::Counted => "counted"@,
        AlgebraTag::SetOf => "set"@,
        AlgebraTag::Range => "range"@,
        AlgebraTag::Frac => "frac"@,
    }
}

/// The name of an algebra.
pub fn algebra_name(tag: AlgebraTag) -> (s: &'static str)
    ensures
        s@ == algebra_text(tag),
{
    match tag {
        AlgebraTag::Exclusive => "exclusive",
        AlgebraTag::Counted => "counted",
        AlgebraTag::SetOf => "set",
        AlgebraTag::Range => "range",
        AlgebraTag::Frac => "frac",
    }
}

/// The algebra of a name.
pub fn algebra(s: &str) -> (r: Result<AlgebraTag, KernelError>)
    ensures
        match r {
            Ok(t) => s@ == algebra_text(t),
            Err(e) => {
                &&& forall|t: AlgebraTag| s@ != #[trigger] algebra_text(t)
                &&& e@ == storage_fault("unknown algebra "@ + s@)
            },
        },
{
    if same(s, "exclusive") {
        Ok(AlgebraTag::Exclusive)
    } else if same(s, "counted") {
        Ok(AlgebraTag::Counted)
    } else if same(s, "set") {
        Ok(AlgebraTag::SetOf)
    } else if same(s, "range") {
        Ok(AlgebraTag::Range)
    } else if same(s, "frac") {
        Ok(AlgebraTag::Frac)
    } else {
        Err(corrupt(joined_text("unknown algebra ", s).as_str()))
    }
}

/// The name of a grade.
pub open spec fn grade_text(g: RevertGrade) -> Seq<char> {
    match g {
        RevertGrade::Inverse => "inverse"@,
        RevertGrade::Compensable => "compensable"@,
        RevertGrade::External => "external"@,
    }
}

/// The name of a grade.
pub fn grade_name(g: RevertGrade) -> (s: &'static str)
    ensures
        s@ == grade_text(g),
{
    match g {
        RevertGrade::Inverse => "inverse",
        RevertGrade::Compensable => "compensable",
        RevertGrade::External => "external",
    }
}

/// The grade of a name.
pub fn grade(s: &str) -> (r: Result<RevertGrade, KernelError>)
    ensures
        match r {
            Ok(g) => s@ == grade_text(g),
            Err(e) => {
                &&& forall|g: RevertGrade| s@ != #[trigger] grade_text(g)
                &&& e@ == storage_fault("unknown grade "@ + s@)
            },
        },
{
    if same(s, "inverse") {
        Ok(RevertGrade::Inverse)
    } else if same(s, "compensable") {
        Ok(RevertGrade::Compensable)
    } else if same(s, "external") {
        Ok(RevertGrade::External)
    } else {
        Err(corrupt(joined_text("unknown grade ", s).as_str()))
    }
}

/// The grade of an entry of the historical journal.
pub fn grade_from_str(s: &str) -> (r: Result<RevertGrade, KernelError>)
    ensures
        match r {
            Ok(g) => s@ == grade_text(g),
            Err(e) => {
                &&& forall|g: RevertGrade| s@ != #[trigger] grade_text(g)
                &&& e@ == Refusal::Corrupt("journal grade: "@ + s@)
            },
        },
{
    match grade(s) {
        Ok(g) => Ok(g),
        Err(_) => Err(KernelError::Corrupt(joined_text("journal grade: ", s))),
    }
}

/// The name of the state of an entry of the historical journal.
pub open spec fn journal_text(s: JournalState) -> Seq<char> {
    match s {
        JournalState::Pending => "pending"@,
        JournalState::InFlight => "in_flight"@,
        JournalState::Done => "done"@,
        JournalState::Failed => "failed"@,
    }
}

/// The name of the state of an entry of the historical journal.
pub fn state_str(s: JournalState) -> (t: &'static str)
    ensures
        t@ == journal_text(s),
{
    match s {
        JournalState::Pending => "pending",
        JournalState::InFlight => "in_flight",
        JournalState::Done => "done",
        JournalState::Failed => "failed",
    }
}

/// Whether a text names a state of an entry of the historical journal.
pub fn is_journal_state(s: &str) -> (b: bool)
    ensures
        b == exists|j: JournalState| s@ == #[trigger] journal_text(j),
{
    if same(s, "pending") {
        assert(s@ == journal_text(JournalState::Pending));
        true
    } else if same(s, "in_flight") {
        assert(s@ == journal_text(JournalState::InFlight));
        true
    } else if same(s, "done") {
        assert(s@ == journal_text(JournalState::Done));
        true
    } else if same(s, "failed") {
        assert(s@ == journal_text(JournalState::Failed));
        true
    } else {
        assert forall|j: JournalState| s@ != #[trigger] journal_text(j) by {}
        false
    }
}

/// No two policies share a name: a stored policy is read back as it was.
pub proof fn policy_names_differ(a: CleanupPolicy, b: CleanupPolicy)
    requires
        policy_text(a) == policy_text(b),
    ensures
        a == b,
{
    reveal_strlit("accounting_only");
    reveal_strlit("process");
    reveal_strlit("file_lock");
    reveal_strlit("port");
    reveal_strlit("subscription");
    reveal_strlit("plugin");
    reveal_strlit("provider");
    assert("accounting_only"@.len() == 15);
    assert("process"@.len() == 7);
    assert("file_lock"@.len() == 9);
    assert("port"@.len() == 4);
    assert("subscription"@.len() == 12);
    assert("plugin"@.len() == 6);
    assert("provider"@.len() == 8);
}

/// No two algebras share a name.
pub proof fn algebra_names_differ(a: AlgebraTag, b: AlgebraTag)
    requires
        algebra_text(a) == algebra_text(b),
    ensures
        a == b,
{
    reveal_strlit("exclusive");
    reveal_strlit("counted");
    reveal_strlit("set");
    reveal_strlit("range");
    reveal_strlit("frac");
    assert("exclusive"@.len() == 9);
    assert("counted"@.len() == 7);
    assert("set"@.len() == 3);
    assert("range"@.len() == 5);
    assert("frac"@.len() == 4);
}

/// No two grades share a name.
pub proof fn grade_names_differ(a: RevertGrade, b: RevertGrade)
    requires
        grade_text(a) == grade_text(b),
    ensures
        a == b,
{
    reveal_strlit("inverse");
    reveal_strlit("compensable");
    reveal_strlit("external");
    assert("inverse"@.len() == 7);
    assert("compensable"@.len() == 11);
    assert("external"@.len() == 8);
}

/// One incarnation of a process.
#[verifier::ext_equal]
pub struct Incarnation {
    pub pid: u32,
    pub start_ticks: u64,
    pub boot: Seq<char>,
}

impl View for ProcessWitness {
    type V = Incarnation;

    open spec fn view(&self) -> Incarnation {
        Incarnation { pid: self.pid, start_ticks: self.start_ticks, boot: self.boot@ }
    }
}

impl Clone for ProcessWitness {
    fn clone(&self) -> (r: Self)
        ensures
            r@ == self@,
    {
        ProcessWitness { pid: self.pid, start_ticks: self.start_ticks, boot: self.boot.clone() }
    }
}

/// One session of a host process.
#[verifier::ext_equal]
pub struct Session {
    pub process: Incarnation,
    pub session: Seq<char>,
}

impl View for HostWitness {
    type V = Session;

    open spec fn view(&self) -> Session {
        Session { process: self.process@, session: self.session@ }
    }
}

impl Clone for HostWitness {
    fn clone(&self) -> (r: Self)
        ensures
            r@ == self@,
    {
        HostWitness { process: self.process.clone(), session: self.session.clone() }
    }
}

/// What stands behind a holding.
#[verifier::ext_equal]
pub enum Target {
    AccountingOnly,
    Process(Incarnation),
    FileLock { path: Seq<char>, device: u64, inode: u64, owner: Option<Incarnation> },
    Port { transport: Transport, port: u16 },
    Subscription { host: Session, subscription: u64 },
    Plugin { host: Session, process: Incarnation },
    Provider,
    Unresolved { kind: CleanupKind, reason: Seq<char> },
}

impl View for CleanupTarget {
    type V = Target;

    open spec fn view(&self) -> Target {
        match self {
            CleanupTarget::AccountingOnly => Target::AccountingOnly,
            CleanupTarget::Process(w) => Target::Process(w@),
            CleanupTarget::FileLock { path, device, inode, owner } => Target::FileLock {
                path: path@,
                device: *device,
                inode: *inode,
                owner: match owner {
                    Some(w) => Some(w@),
                    None => None,
                },
            },
            CleanupTarget::Port { transport, port } => Target::Port {
                transport: *transport,
                port: *port,
            },
            CleanupTarget::Subscription { host, subscription } => Target::Subscription {
                host: host@,
                subscription: *subscription,
            },
            CleanupTarget::Plugin { host, process } => Target::Plugin {
                host: host@,
                process: process@,
            },
            CleanupTarget::Provider => Target::Provider,
            CleanupTarget::Unresolved { kind, reason } => Target::Unresolved {
                kind: *kind,
                reason: reason@,
            },
        }
    }
}

/// How far a cleanup has come.
#[verifier::ext_equal]
pub enum Progress {
    Pending,
    Running(Session),
    Retryable(Seq<char>),
    Unknown(Seq<char>),
    Blocked(Seq<char>),
    Done(Completion),
}

impl View for CleanupState {
    type V = Progress;

    open spec fn view(&self) -> Progress {
        match self {
            CleanupState::Pending => Progress::Pending,
            CleanupState::Running { worker } => Progress::Running(worker@),
            CleanupState::Retryable(s) => Progress::Retryable(s@),
            CleanupState::Unknown(s) => Progress::Unknown(s@),
            CleanupState::Blocked(s) => Progress::Blocked(s@),
            CleanupState::Done(c) => Progress::Done(*c),
        }
    }
}

impl Clone for CleanupState {
    fn clone(&self) -> (r: Self)
        ensures
            r@ == self@,
    {
        match self {
            CleanupState::Pending => CleanupState::Pending,
            CleanupState::Running { worker } => CleanupState::Running { worker: worker.clone() },
            CleanupState::Retryable(s) => CleanupState::Retryable(s.clone()),
            CleanupState::Unknown(s) => CleanupState::Unknown(s.clone()),
            CleanupState::Blocked(s) => CleanupState::Blocked(s.clone()),
            CleanupState::Done(c) => CleanupState::Done(*c),
        }
    }
}

/// A cleanup obligation.
#[verifier::ext_equal]
pub struct Task {
    pub id: u64,
    pub key: Seq<char>,
    pub holding: u64,
    pub generation: Seq<char>,
    pub state: Progress,
    pub attempts: u64,
    pub requested_at: u64,
    pub updated_at: u64,
}

impl View for CleanupRecord {
    type V = Task;

    open spec fn view(&self) -> Task {
        Task {
            id: self.id,
            key: self.key@,
            holding: self.holding,
            generation: self.generation@,
            state: self.state@,
            attempts: self.attempts,
            requested_at: self.requested_at,
            updated_at: self.updated_at,
        }
    }
}

impl Clone for CleanupRecord {
    fn clone(&self) -> (r: Self)
        ensures
            r@ == self@,
    {
        CleanupRecord {
            id: self.id,
            key: self.key.clone(),
            holding: self.holding,
            generation: self.generation.clone(),
            state: self.state.clone(),
            attempts: self.attempts,
            requested_at: self.requested_at,
            updated_at: self.updated_at,
        }
    }
}

/// The declaration of a class.
#[verifier::ext_equal]
pub struct Class {
    pub class_id: Seq<char>,
    pub algebra: AlgebraTag,
    pub release_idempotent: bool,
    pub lease_duration: Option<u64>,
    pub revert_grade: RevertGrade,
    pub cleanup: CleanupPolicy,
}

impl View for ClassDecl {
    type V = Class;

    open spec fn view(&self) -> Class {
        Class {
            class_id: self.class_id@,
            algebra: self.algebra,
            release_idempotent: self.release_idempotent,
            lease_duration: self.lease_duration,
            revert_grade: self.revert_grade,
            cleanup: self.cleanup,
        }
    }
}

/// What a fragment says.
#[verifier::ext_equal]
pub enum FragView {
    Ex(bool),
    Count(Option<u64>),
    SetOf(Set<Seq<char>>),
    Range(Seq<(u64, u64)>, bool),
    Frac(Seq<char>, Seq<char>),
}

impl View for Frag {
    type V = FragView;

    open spec fn view(&self) -> FragView {
        match self {
            Frag::Ex { token } => FragView::Ex(*token),
            Frag::Count(n) => FragView::Count(*n),
            Frag::SetOf(s) => FragView::SetOf(s@),
            Frag::Range { spans, bot } => FragView::Range(spans@, *bot),
            Frag::Frac { num, den } => FragView::Frac(num@, den@),
        }
    }
}

/// The capacity of an instance.
#[verifier::ext_equal]
pub struct Capacity {
    pub class_id: Seq<char>,
    pub instance: Seq<char>,
    pub capacity: FragView,
}

impl View for PoolRecord {
    type V = Capacity;

    open spec fn view(&self) -> Capacity {
        Capacity {
            class_id: self.class_id@,
            instance: self.instance@,
            capacity: self.capacity@,
        }
    }
}

/// A holding.
#[verifier::ext_equal]
pub struct Held {
    pub id: u64,
    pub subject: Seq<char>,
    pub class_id: Seq<char>,
    pub instance: Seq<char>,
    pub frag: FragView,
    pub generation: Seq<char>,
    pub parent: Option<u64>,
    pub lease: Lease,
    pub acquired_at: u64,
    pub state: HoldingState,
    pub target: Target,
}

impl View for HoldingRecord {
    type V = Held;

    open spec fn view(&self) -> Held {
        Held {
            id: self.id,
            subject: self.subject@,
            class_id: self.class_id@,
            instance: self.instance@,
            frag: self.frag@,
            generation: self.generation@,
            parent: self.parent,
            lease: self.lease,
            acquired_at: self.acquired_at,
            state: self.state,
            target: self.target@,
        }
    }
}

/// What classes declare.
pub open spec fn class_views(s: Seq<ClassDecl>) -> Seq<Class> {
    Seq::new(s.len(), |i: int| s[i]@)
}

/// What pools hold.
pub open spec fn pool_views(s: Seq<PoolRecord>) -> Seq<Capacity> {
    Seq::new(s.len(), |i: int| s[i]@)
}

/// What holdings hold.
pub open spec fn held_views(s: Seq<HoldingRecord>) -> Seq<Held> {
    Seq::new(s.len(), |i: int| s[i]@)
}

/// What obligations ask for.
pub open spec fn task_views(s: Seq<CleanupRecord>) -> Seq<Task> {
    Seq::new(s.len(), |i: int| s[i]@)
}

/// The name of the obligation of a holding in a realm.
pub open spec fn task_key(realm: Seq<char>, holding: u64) -> Seq<char> {
    "cleanup:"@ + realm + ":"@ + decimal(holding as nat)
}

/// The name of the obligation of a holding in a realm.
pub fn cleanup_key(realm: &str, holding: u64) -> (s: String)
    ensures
        s@ == task_key(realm@, holding),
{
    let mut s: String = "cleanup:".to_owned();
    s.append(realm);
    s.append(":");
    push_decimal(&mut s, holding);
    s
}

} // verus!
