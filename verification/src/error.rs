//! The errors of the kernel.

use vstd::prelude::*;

verus! {

/// What went wrong. Errors of the file system and of the database arrive as text.
#[derive(Debug, PartialEq, Eq)]
pub enum KernelError {
    Io(String),
    Db(String),
    Corrupt(String),
    Denied(String),
    NotFound(String),
    /// The counted budget of a verb is spent.
    BudgetExhausted(String),
    /// No live capability lets the subject use the verb of the resource.
    NoCapability { subject: String, resource: String, verb: String },
}

/// What an error says.
pub enum Refusal {
    Io(Seq<char>),
    Db(Seq<char>),
    Corrupt(Seq<char>),
    Denied(Seq<char>),
    NotFound(Seq<char>),
    BudgetExhausted(Seq<char>),
    NoCapability { subject: Seq<char>, resource: Seq<char>, verb: Seq<char> },
}

impl View for KernelError {
    type V = Refusal;

    open spec fn view(&self) -> Refusal {
        match self {
            KernelError::Io(s) => Refusal::Io(s@),
            KernelError::Db(s) => Refusal::Db(s@),
            KernelError::Corrupt(s) => Refusal::Corrupt(s@),
            KernelError::Denied(s) => Refusal::Denied(s@),
            KernelError::NotFound(s) => Refusal::NotFound(s@),
            KernelError::BudgetExhausted(s) => Refusal::BudgetExhausted(s@),
            KernelError::NoCapability { subject, resource, verb } => Refusal::NoCapability {
                subject: subject@,
                resource: resource@,
                verb: verb@,
            },
        }
    }
}

/// The text of an error.
pub open spec fn refusal_text(e: Refusal) -> Seq<char> {
    match e {
        Refusal::Io(s) => "io: "@ + s,
        Refusal::Db(s) => "db: "@ + s,
        Refusal::Corrupt(s) => "corrupt: "@ + s,
        Refusal::Denied(s) => "denied: "@ + s,
        Refusal::NotFound(s) => "not found: "@ + s,
        Refusal::BudgetExhausted(s) => "budget exhausted: "@ + s,
        Refusal::NoCapability { subject, resource, verb } => "no capability: "@ + subject + " -> "@
            + resource + " verb "@ + verb,
    }
}

impl KernelError {
    /// The text of the error.
    pub fn message(&self) -> (s: String)
        ensures
            s@ == refusal_text(self@),
    {
        match self {
            KernelError::Io(e) => joined_text("io: ", e.as_str()),
            KernelError::Db(e) => joined_text("db: ", e.as_str()),
            KernelError::Corrupt(e) => joined_text("corrupt: ", e.as_str()),
            KernelError::Denied(e) => joined_text("denied: ", e.as_str()),
            KernelError::NotFound(e) => joined_text("not found: ", e.as_str()),
            KernelError::BudgetExhausted(e) => joined_text("budget exhausted: ", e.as_str()),
            KernelError::NoCapability { subject, resource, verb } => {
                let mut s: String = joined_text("no capability: ", subject.as_str());
                s.append(" -> ");
                s.append(resource.as_str());
                s.append(" verb ");
                s.append(verb.as_str());
                s
            },
        }
    }
}

/// Two texts in a row.
pub fn joined_text(a: &str, b: &str) -> (s: String)
    ensures
        s@ == a@ + b@,
{
    let mut s: String = a.to_owned();
    s.append(b);
    s
}

} // verus!
