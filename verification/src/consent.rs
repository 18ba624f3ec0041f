//! The consent channel: what a user has agreed to, the check of its signature, and the text
//! that the user is shown.

use crate::digest::{
    blake3_keyed_digest, hex_chars, hex_digit, hex_text, keyed_digest, random_bytes,
};
use crate::error::{KernelError, Refusal};
use crate::strmap::{listing_of, StrMap};
use crate::text::{decimal, push_decimal, same};
use vstd::prelude::*;
use vstd::utf8::{encode_utf8, is_char_boundary};

verus! {

/// The secret that consents are signed with.
pub struct ConsentKey {
    bytes: [u8; 32],
}

impl View for ConsentKey {
    type V = Seq<u8>;

    closed spec fn view(&self) -> Seq<u8> {
        self.bytes@
    }
}

impl ConsentKey {
    /// The key that a stored secret spells, where it has the right length.
    pub fn from_stored(bytes: &[u8]) -> (r: Option<ConsentKey>)
        ensures
            match r {
                Some(k) => bytes@.len() == 32 && k@ == bytes@,
                None => bytes@.len() != 32,
            },
    {
        if bytes.len() == 32 {
            let mut k: [u8; 32] = [0u8;32];
            let mut i: usize = 0;
            while i < 32
                invariant
                    i <= 32,
                    bytes@.len() == 32,
                    forall|j: int| 0 <= j < i ==> k@[j] == bytes@[j],
                decreases 32 - i,
            {
                k[i] = bytes[i];
                i = i + 1;
            }
            assert(k@ =~= bytes@);
            Some(ConsentKey { bytes: k })
        } else {
            None
        }
    }

    /// A new key. Its bytes are chosen at random, so nothing is stated of them but their number.
    pub fn generate() -> (k: ConsentKey)
        ensures
            k@.len() == 32,
    {
        let fresh: Vec<u8> = random_bytes(32);
        match ConsentKey::from_stored(fresh.as_slice()) {
            Some(k) => k,
            None => ConsentKey { bytes: [0u8;32] },
        }
    }

    /// The bytes to store.
    pub fn stored(&self) -> (r: &[u8; 32])
        ensures
            r@ == self@,
    {
        &self.bytes
    }
}

/// How often each verb may be performed.
pub type Budget = StrMap<u64>;

/// What a user has agreed to, and the signature.
#[derive(Debug)]
pub struct ConsentRecord {
    /// The content address of the plan.
    pub plan_hash: String,
    pub budget: Budget,
    pub nonce: String,
    pub issued_at: u64,
    pub ttl_secs: u64,
    pub mac: String,
}

impl Clone for ConsentRecord {
    fn clone(&self) -> (r: Self)
        ensures
            r.plan_hash@ == self.plan_hash@,
            r.budget@ == self.budget@,
            r.nonce@ == self.nonce@,
            r.issued_at == self.issued_at,
            r.ttl_secs == self.ttl_secs,
            r.mac@ == self.mac@,
    {
        ConsentRecord {
            plan_hash: self.plan_hash.clone(),
            budget: self.budget.clone(),
            nonce: self.nonce.clone(),
            issued_at: self.issued_at,
            ttl_secs: self.ttl_secs,
            mac: self.mac.clone(),
        }
    }
}

/// A character inside a string in JSON notation: quotes, backslashes and control characters are
/// escaped, and everything else stands as it is.
pub open spec fn json_escaped(c: char) -> Seq<char> {
    if c == '"' || c == '\\' {
        seq!['\\', c]
    } else if c == '\u{8}' {
        seq!['\\', 'b']
    } else if c == '\u{c}' {
        seq!['\\', 'f']
    } else if c == '\n' {
        seq!['\\', 'n']
    } else if c == '\r' {
        seq!['\\', 'r']
    } else if c == '\t' {
        seq!['\\', 't']
    } else if (c as int) < 32 {
        seq!['\\', 'u', '0', '0', hex_digit(c as int / 16), hex_digit(c as int % 16)]
    } else {
        seq![c]
    }
}

/// The characters of a string, each as it is written.
pub open spec fn json_inside(s: Seq<char>) -> Seq<char>
    decreases s.len(),
{
    if s.len() == 0 {
        Seq::empty()
    } else {
        json_inside(s.drop_last()) + json_escaped(s.last())
    }
}

/// A string in JSON notation.
pub open spec fn json_quoted(s: Seq<char>) -> Seq<char> {
    seq!['"'] + json_inside(s) + seq!['"']
}

/// Calls `serde_json::to_string` on a string, which writes it between quotes, with the short escape
/// of a character where there is one and a hexadecimal escape for other control characters. A
/// string is always written.
#[verifier::external_body]
fn quoted(s: &str) -> (r: String)
    ensures
        r@ == json_quoted(s@),
{
    serde_json::to_string(s).unwrap()
}

/// The members of a budget in JSON notation, separated by commas.
pub open spec fn budget_members(pairs: Seq<(Seq<char>, u64)>) -> Seq<char>
    decreases pairs.len(),
{
    if pairs.len() == 0 {
        Seq::empty()
    } else {
        let rest = pairs.drop_last();
        budget_members(rest) + (if rest.len() == 0 {
            Seq::empty()
        } else {
            ","@
        }) + json_quoted(pairs.last().0) + ":"@ + decimal(pairs.last().1 as nat)
    }
}

/// The text that is signed: JSON without blanks, the keys in order.
pub open spec fn mac_text(
    plan_hash: Seq<char>,
    pairs: Seq<(Seq<char>, u64)>,
    nonce: Seq<char>,
    issued_at: u64,
    ttl: u64,
) -> Seq<char> {
    "{\"budget\":{"@ + budget_members(pairs) + "},\"issued_at\":"@ + decimal(issued_at as nat)
        + ",\"nonce\":"@ + json_quoted(nonce) + ",\"plan_hash\":"@ + json_quoted(plan_hash)
        + ",\"ttl_secs\":"@ + decimal(ttl as nat) + "}"@
}

/// The text that is signed.
fn mac_input(plan_hash: &str, budget: &Budget, nonce: &str, issued_at: u64, ttl: u64) -> (s: String)
    ensures
        s@ == mac_text(plan_hash@, listing_of(budget@), nonce@, issued_at, ttl),
{
    let mut s: String = "{\"budget\":{".to_owned();
    let ghost head = s@;
    let n: usize = budget.len();
    let mut i: usize = 0;
    assert(budget.pairs().take(0) =~= Seq::<(Seq<char>, u64)>::empty());
    assert(s@ =~= head + budget_members(budget.pairs().take(0)));
    while i < n
        invariant
            i <= n,
            n == budget.pairs().len(),
            budget.pairs() == listing_of(budget@),
            s@ == head + budget_members(budget.pairs().take(i as int)),
        decreases n - i,
    {
        if i > 0 {
            s.append(",");
        }
        s.append(quoted(budget.key_at(i).as_str()).as_str());
        s.append(":");
        push_decimal(&mut s, *budget.value_at(i));
        proof {
            let p = budget.pairs().take(i + 1);
            assert(p.drop_last() =~= budget.pairs().take(i as int));
            assert(s@ =~= head + budget_members(p));
        }
        i = i + 1;
    }
    assert(budget.pairs().take(n as int) =~= budget.pairs());
    s.append("},\"issued_at\":");
    push_decimal(&mut s, issued_at);
    s.append(",\"nonce\":");
    s.append(quoted(nonce).as_str());
    s.append(",\"plan_hash\":");
    s.append(quoted(plan_hash).as_str());
    s.append(",\"ttl_secs\":");
    push_decimal(&mut s, ttl);
    s.append("}");
    s
}

/// The signature that a record ought to carry.
pub open spec fn due_mac(c: &ConsentRecord, key: Seq<u8>) -> Seq<char> {
    hex_chars(
        blake3_keyed_digest(
            key,
            encode_utf8(
                mac_text(c.plan_hash@, listing_of(c.budget@), c.nonce@, c.issued_at, c.ttl_secs),
            ),
        ),
    )
}

/// What the check of a consent finds: a signature that does not fit comes before a term that
/// has run out.
pub open spec fn consent_fault(c: &ConsentRecord, key: Seq<u8>, now: u64) -> Option<Refusal> {
    if c.mac@ != due_mac(c, key) {
        Some(Refusal::Denied("consent MAC mismatch"@))
    } else if now > c.issued_at + c.ttl_secs {
        Some(Refusal::Denied("consent expired"@))
    } else {
        None
    }
}

/// The signature of a consent, in hexadecimal notation.
pub fn consent_mac(
    key: &ConsentKey,
    plan_hash: &str,
    budget: &Budget,
    nonce: &str,
    issued_at: u64,
    ttl: u64,
) -> (s: String)
    ensures
        s@ == hex_chars(
            blake3_keyed_digest(
                key@,
                encode_utf8(mac_text(plan_hash@, listing_of(budget@), nonce@, issued_at, ttl)),
            ),
        ),
{
    let text: String = mac_input(plan_hash, budget, nonce, issued_at, ttl);
    let d: [u8; 32] = keyed_digest(&key.bytes, text.as_str().as_bytes());
    hex_text(&d)
}

impl ConsentRecord {
    /// Checks the signature and the term.
    pub fn verify(&self, key: &ConsentKey, now: u64) -> (r: Result<(), KernelError>)
        ensures
            match r {
                Ok(_) => consent_fault(self, key@, now) is None,
                Err(e) => consent_fault(self, key@, now) == Some(e@),
            },
    {
        let expect: String = consent_mac(
            key,
            self.plan_hash.as_str(),
            &self.budget,
            self.nonce.as_str(),
            self.issued_at,
            self.ttl_secs,
        );
        if !same(expect.as_str(), self.mac.as_str()) {
            return Err(KernelError::Denied("consent MAC mismatch".to_owned()));
        }
        let expired: bool = match self.issued_at.checked_add(self.ttl_secs) {
            Some(end) => now > end,
            None => false,
        };
        if expired {
            return Err(KernelError::Denied("consent expired".to_owned()));
        }
        Ok(())
    }
}

/// The lines of a budget, one for each verb.
pub open spec fn budget_lines(pairs: Seq<(Seq<char>, u64)>) -> Seq<char>
    decreases pairs.len(),
{
    if pairs.len() == 0 {
        Seq::empty()
    } else {
        budget_lines(pairs.drop_last()) + "  - "@ + pairs.last().0 + " <= "@ + decimal(
            pairs.last().1 as nat,
        ) + "\n"@
    }
}

/// How much of the address of a plan is shown.
pub open spec fn shown(len: nat) -> int {
    if len < 21 {
        len as int
    } else {
        21
    }
}

/// Whether a text shows a budget: fixed words, the start of the address of the plan, and the
/// verbs in a fixed order.
pub open spec fn renders(
    s: Seq<char>,
    plan_hash: Seq<char>,
    budget: Map<Seq<char>, u64>,
) -> bool {
    exists|head: Seq<char>|
        {
            &&& #[trigger] encode_utf8(head) == encode_utf8(plan_hash).take(
                shown(encode_utf8(plan_hash).len()),
            )
            &&& s == "Plan "@ + head + "\nwill get these effect budgets:\n"@ + budget_lines(
                listing_of(budget),
            )
                + "Operation that exceeds budget will be stopped. Reading and pure computation are not limited though\n"@
        }
}

/// The text that a user consents to.
pub fn render_budget(plan_hash: &str, budget: &Budget) -> (s: String)
    requires
        is_char_boundary(encode_utf8(plan_hash@), shown(encode_utf8(plan_hash@).len())),
    ensures
        renders(s@, plan_hash@, budget@),
{
    let len: usize = plan_hash.as_bytes().len();
    let cut: usize = if len < 21 {
        len
    } else {
        21
    };
    let (head, tail) = plan_hash.split_at(cut);
    let mut s: String = "Plan ".to_owned();
    s.append(head);
    s.append("\nwill get these effect budgets:\n");
    let ghost intro = s@;
    let n: usize = budget.len();
    let mut i: usize = 0;
    assert(budget.pairs().take(0) =~= Seq::<(Seq<char>, u64)>::empty());
    assert(s@ =~= intro + budget_lines(budget.pairs().take(0)));
    while i < n
        invariant
            i <= n,
            n == budget.pairs().len(),
            budget.pairs() == listing_of(budget@),
            s@ == intro + budget_lines(budget.pairs().take(i as int)),
        decreases n - i,
    {
        s.append("  - ");
        s.append(budget.key_at(i).as_str());
        s.append(" <= ");
        push_decimal(&mut s, *budget.value_at(i));
        s.append("\n");
        proof {
            let p = budget.pairs().take(i + 1);
            assert(p.drop_last() =~= budget.pairs().take(i as int));
            assert(s@ =~= intro + budget_lines(p));
        }
        i = i + 1;
    }
    assert(budget.pairs().take(n as int) =~= budget.pairs());
    assert(encode_utf8(head@) == encode_utf8(plan_hash@).take(cut as int));
    s.append(
        "Operation that exceeds budget will be stopped. Reading and pure computation are not limited though\n",
    );
    s
}

} // verus!
