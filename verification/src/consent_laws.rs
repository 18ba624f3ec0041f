//! What a signature binds: the text that is signed tells every field of a consent.

use crate::consent::{budget_members, json_escaped, json_inside, json_quoted, mac_text};
use crate::digest::hex_digit;
use crate::text::{decimal, decimal_is_parsed, is_digit};
use vstd::prelude::*;

verus! {

/// Texts that go on with the same text are equal once their heads are equally long.
proof fn same_heads(a: Seq<char>, x: Seq<char>, b: Seq<char>, y: Seq<char>)
    requires
        a + x == b + y,
        a.len() == b.len(),
    ensures
        a == b,
        x == y,
{
    let t = a + x;
    assert(t.take(a.len() as int) =~= a);
    assert(t.take(a.len() as int) =~= b);
    assert(t.skip(a.len() as int) =~= x);
    assert(t.skip(a.len() as int) =~= y);
}

proof fn inside_first(s: Seq<char>)
    requires
        s.len() > 0,
    ensures
        json_inside(s) == json_escaped(s[0]) + json_inside(s.drop_first()),
    decreases s.len(),
{
    if s.len() == 1 {
        assert(s.drop_last() =~= Seq::<char>::empty());
        assert(s.drop_first() =~= Seq::<char>::empty());
        assert(json_inside(s) =~= json_escaped(s[0]) + json_inside(s.drop_first()));
    } else {
        inside_first(s.drop_last());
        assert(s.drop_last().drop_first() =~= s.drop_first().drop_last());
        assert(s.drop_first().last() == s.last());
        assert(json_inside(s) =~= json_escaped(s[0]) + json_inside(s.drop_first()));
    }
}

/// The first characters tell which character was escaped, and where its escape ends.
proof fn escapes_are_told_apart(c: char, x: Seq<char>, d: char, y: Seq<char>)
    requires
        json_escaped(c) + x == json_escaped(d) + y,
    ensures
        c == d,
        x == y,
{
    let t = json_escaped(c) + x;
    let e = json_escaped(c);
    let f = json_escaped(d);
    assert forall|i: int| 0 <= i < e.len() implies t[i] == #[trigger] e[i] by {}
    assert forall|i: int| 0 <= i < f.len() implies t[i] == #[trigger] f[i] by {
        assert((f + y)[i] == f[i]);
    }
    assert(e[0] == f[0]);
    if e.len() > 1 && f.len() > 1 {
        assert(e[1] == f[1]);
        if e.len() == 6 && f.len() == 6 {
            assert(e[4] == f[4]);
            assert(e[5] == f[5]);
            assert(hex_digit(c as int / 16) == hex_digit(d as int / 16));
            assert(hex_digit(c as int % 16) == hex_digit(d as int % 16));
        }
    }
    assert(c == d);
    same_heads(e, x, f, y);
}

proof fn escape_is_no_quote(c: char)
    ensures
        json_escaped(c).len() > 0,
        json_escaped(c)[0] != '"',
{
}

proof fn insides_are_told_apart(a: Seq<char>, x: Seq<char>, b: Seq<char>, y: Seq<char>)
    requires
        json_inside(a) + (seq!['"'] + x) == json_inside(b) + (seq!['"'] + y),
    ensures
        a == b,
        x == y,
    decreases a.len(),
{
    let qx = seq!['"'] + x;
    let qy = seq!['"'] + y;
    let t = json_inside(a) + qx;
    if a.len() == 0 {
        assert(t[0] == '"');
        if b.len() > 0 {
            inside_first(b);
            escape_is_no_quote(b[0]);
            assert((json_inside(b) + qy)[0] == json_escaped(b[0])[0]);
        }
        assert(a =~= b);
        assert(json_inside(a) + seq!['"'] + x =~= t);
        assert(json_inside(b) + seq!['"'] + y =~= json_inside(b) + qy);
        same_heads(json_inside(a) + seq!['"'], x, json_inside(b) + seq!['"'], y);
    } else {
        inside_first(a);
        escape_is_no_quote(a[0]);
        assert(t[0] == json_escaped(a[0])[0]);
        if b.len() == 0 {
            assert((json_inside(b) + qy)[0] == '"');
        }
        inside_first(b);
        let ra = json_inside(a.drop_first()) + qx;
        let rb = json_inside(b.drop_first()) + qy;
        assert(t =~= json_escaped(a[0]) + ra);
        assert(json_inside(b) + qy =~= json_escaped(b[0]) + rb);
        escapes_are_told_apart(a[0], ra, b[0], rb);
        insides_are_told_apart(a.drop_first(), x, b.drop_first(), y);
        assert(a =~= seq![a[0]] + a.drop_first());
        assert(b =~= seq![b[0]] + b.drop_first());
    }
}

proof fn quotes_are_told_apart(a: Seq<char>, x: Seq<char>, b: Seq<char>, y: Seq<char>)
    requires
        json_quoted(a) + x == json_quoted(b) + y,
    ensures
        a == b,
        x == y,
{
    let ra = json_inside(a) + (seq!['"'] + x);
    let rb = json_inside(b) + (seq!['"'] + y);
    assert(json_quoted(a) + x =~= seq!['"'] + ra);
    assert(json_quoted(b) + y =~= seq!['"'] + rb);
    same_heads(seq!['"'], ra, seq!['"'], rb);
    insides_are_told_apart(a, x, b, y);
}

proof fn numbers_are_told_apart(a: nat, x: Seq<char>, b: nat, y: Seq<char>)
    requires
        decimal(a) + x == decimal(b) + y,
        x.len() > 0,
        y.len() > 0,
        !is_digit(x[0]),
        !is_digit(y[0]),
    ensures
        a == b,
        x == y,
{
    decimal_is_parsed(a);
    decimal_is_parsed(b);
    let da = decimal(a);
    let db = decimal(b);
    let t = da + x;
    if da.len() < db.len() {
        assert(t[da.len() as int] == x[0]);
        assert((db + y)[da.len() as int] == db[da.len() as int]);
    }
    if db.len() < da.len() {
        assert((db + y)[db.len() as int] == y[0]);
        assert(t[db.len() as int] == da[db.len() as int]);
    }
    same_heads(da, x, db, y);
}

/// A member of a budget.
spec fn one_member(p: (Seq<char>, u64)) -> Seq<char> {
    json_quoted(p.0) + ":"@ + decimal(p.1 as nat)
}

/// Members that follow others.
spec fn further(pairs: Seq<(Seq<char>, u64)>) -> Seq<char>
    decreases pairs.len(),
{
    if pairs.len() == 0 {
        Seq::empty()
    } else {
        ","@ + one_member(pairs[0]) + further(pairs.drop_first())
    }
}

proof fn further_grows(pairs: Seq<(Seq<char>, u64)>)
    requires
        pairs.len() > 0,
    ensures
        further(pairs) == further(pairs.drop_last()) + ","@ + one_member(pairs.last()),
    decreases pairs.len(),
{
    if pairs.len() == 1 {
        assert(pairs.drop_last() =~= Seq::<(Seq<char>, u64)>::empty());
        assert(pairs.drop_first() =~= Seq::<(Seq<char>, u64)>::empty());
        assert(further(pairs) =~= further(pairs.drop_last()) + ","@ + one_member(pairs.last()));
    } else {
        further_grows(pairs.drop_first());
        assert(pairs.drop_first().drop_last() =~= pairs.drop_last().drop_first());
        assert(pairs.drop_first().last() == pairs.last());
        assert(further(pairs) =~= further(pairs.drop_last()) + ","@ + one_member(pairs.last()));
    }
}

proof fn members_first(pairs: Seq<(Seq<char>, u64)>)
    requires
        pairs.len() > 0,
    ensures
        budget_members(pairs) == one_member(pairs[0]) + further(pairs.drop_first()),
    decreases pairs.len(),
{
    if pairs.len() == 1 {
        assert(pairs.drop_first() =~= Seq::<(Seq<char>, u64)>::empty());
        assert(pairs.drop_last() =~= Seq::<(Seq<char>, u64)>::empty());
        assert(budget_members(pairs.drop_last()) =~= Seq::<char>::empty());
        assert(further(pairs.drop_first()) =~= Seq::<char>::empty());
        assert(budget_members(pairs) =~= one_member(pairs[0]) + further(pairs.drop_first()));
    } else {
        members_first(pairs.drop_last());
        further_grows(pairs.drop_first());
        assert(pairs.drop_first().drop_last() =~= pairs.drop_last().drop_first());
        assert(pairs.drop_first().last() == pairs.last());
        assert(budget_members(pairs) =~= one_member(pairs[0]) + further(pairs.drop_first()));
    }
}

/// Whether a text goes on after a number.
spec fn goes_on(x: Seq<char>) -> bool {
    x.len() > 0 && !is_digit(x[0])
}

proof fn single_members_are_told_apart(
    p: (Seq<char>, u64),
    x: Seq<char>,
    q: (Seq<char>, u64),
    y: Seq<char>,
)
    requires
        one_member(p) + x == one_member(q) + y,
        goes_on(x),
        goes_on(y),
    ensures
        p == q,
        x == y,
{
    let rp = ":"@ + (decimal(p.1 as nat) + x);
    let rq = ":"@ + (decimal(q.1 as nat) + y);
    assert(one_member(p) + x =~= json_quoted(p.0) + rp);
    assert(one_member(q) + y =~= json_quoted(q.0) + rq);
    quotes_are_told_apart(p.0, rp, q.0, rq);
    same_heads(":"@, decimal(p.1 as nat) + x, ":"@, decimal(q.1 as nat) + y);
    numbers_are_told_apart(p.1 as nat, x, q.1 as nat, y);
}

proof fn further_goes_on(pairs: Seq<(Seq<char>, u64)>, x: Seq<char>)
    requires
        x.len() > 0,
        x[0] == '}',
    ensures
        goes_on(further(pairs) + x),
        pairs.len() > 0 ==> (further(pairs) + x)[0] == ',',
        pairs.len() == 0 ==> (further(pairs) + x)[0] == '}',
{
    reveal_strlit(",");
    if pairs.len() > 0 {
        assert(","@[0] == ',');
        assert(further(pairs)[0] == ',');
    }
}

proof fn further_are_told_apart(
    a: Seq<(Seq<char>, u64)>,
    x: Seq<char>,
    b: Seq<(Seq<char>, u64)>,
    y: Seq<char>,
)
    requires
        further(a) + x == further(b) + y,
        x.len() > 0,
        x[0] == '}',
        y.len() > 0,
        y[0] == '}',
    ensures
        a == b,
        x == y,
    decreases a.len(),
{
    further_goes_on(a, x);
    further_goes_on(b, y);
    if a.len() == 0 {
        assert(a =~= b);
        assert(further(a) + x =~= x);
        assert(further(b) + y =~= y);
    } else {
        let ra = further(a.drop_first()) + x;
        let rb = further(b.drop_first()) + y;
        further_goes_on(a.drop_first(), x);
        further_goes_on(b.drop_first(), y);
        assert(further(a) + x =~= ","@ + (one_member(a[0]) + ra));
        assert(further(b) + y =~= ","@ + (one_member(b[0]) + rb));
        same_heads(","@, one_member(a[0]) + ra, ","@, one_member(b[0]) + rb);
        single_members_are_told_apart(a[0], ra, b[0], rb);
        further_are_told_apart(a.drop_first(), x, b.drop_first(), y);
        assert(a =~= seq![a[0]] + a.drop_first());
        assert(b =~= seq![b[0]] + b.drop_first());
    }
}

proof fn members_are_told_apart(
    a: Seq<(Seq<char>, u64)>,
    x: Seq<char>,
    b: Seq<(Seq<char>, u64)>,
    y: Seq<char>,
)
    requires
        budget_members(a) + x == budget_members(b) + y,
        x.len() > 0,
        x[0] == '}',
        y.len() > 0,
        y[0] == '}',
    ensures
        a == b,
        x == y,
{
    let t = budget_members(a) + x;
    if a.len() > 0 {
        members_first(a);
        assert(t[0] == '"') by {
            assert(t[0] == json_quoted(a[0].0)[0]);
        }
    } else {
        assert(t =~= x);
    }
    if b.len() > 0 {
        members_first(b);
        assert((budget_members(b) + y)[0] == json_quoted(b[0].0)[0]);
    } else {
        assert(budget_members(b) + y =~= y);
    }
    if a.len() == 0 {
        assert(a =~= b);
    } else {
        let ra = further(a.drop_first()) + x;
        let rb = further(b.drop_first()) + y;
        further_goes_on(a.drop_first(), x);
        further_goes_on(b.drop_first(), y);
        assert(t =~= one_member(a[0]) + ra);
        assert(budget_members(b) + y =~= one_member(b[0]) + rb);
        single_members_are_told_apart(a[0], ra, b[0], rb);
        further_are_told_apart(a.drop_first(), x, b.drop_first(), y);
        assert(a =~= seq![a[0]] + a.drop_first());
        assert(b =~= seq![b[0]] + b.drop_first());
    }
}

/// What follows the budget in the text that is signed.
spec fn after_budget(hash: Seq<char>, nonce: Seq<char>, issued_at: u64, ttl: u64) -> Seq<char> {
    "},\"issued_at\":"@ + (decimal(issued_at as nat) + after_issue(hash, nonce, ttl))
}

/// What follows the time in the text that is signed.
spec fn after_issue(hash: Seq<char>, nonce: Seq<char>, ttl: u64) -> Seq<char> {
    ",\"nonce\":"@ + (json_quoted(nonce) + after_nonce(hash, ttl))
}

/// What follows the nonce in the text that is signed.
spec fn after_nonce(hash: Seq<char>, ttl: u64) -> Seq<char> {
    ",\"plan_hash\":"@ + (json_quoted(hash) + after_hash(ttl))
}

/// What follows the plan in the text that is signed.
spec fn after_hash(ttl: u64) -> Seq<char> {
    ",\"ttl_secs\":"@ + (decimal(ttl as nat) + "}"@)
}

proof fn three_group(a: Seq<char>, b: Seq<char>, c: Seq<char>)
    ensures
        a + b + c == a + (b + c),
{
    assert(a + b + c =~= a + (b + c));
}

proof fn text_in_parts(
    hash: Seq<char>,
    pairs: Seq<(Seq<char>, u64)>,
    nonce: Seq<char>,
    issued_at: u64,
    ttl: u64,
)
    ensures
        mac_text(hash, pairs, nonce, issued_at, ttl) == "{\"budget\":{"@ + (budget_members(pairs)
            + after_budget(hash, nonce, issued_at, ttl)),
{
    let t1 = "{\"budget\":{"@;
    let t2 = t1 + budget_members(pairs);
    let t3 = t2 + "},\"issued_at\":"@;
    let t4 = t3 + decimal(issued_at as nat);
    let t5 = t4 + ",\"nonce\":"@;
    let t6 = t5 + json_quoted(nonce);
    let t7 = t6 + ",\"plan_hash\":"@;
    let t8 = t7 + json_quoted(hash);
    let t9 = t8 + ",\"ttl_secs\":"@;
    three_group(t9, decimal(ttl as nat), "}"@);
    three_group(t8, ",\"ttl_secs\":"@, decimal(ttl as nat) + "}"@);
    three_group(t7, json_quoted(hash), after_hash(ttl));
    three_group(t6, ",\"plan_hash\":"@, json_quoted(hash) + after_hash(ttl));
    three_group(t5, json_quoted(nonce), after_nonce(hash, ttl));
    three_group(t4, ",\"nonce\":"@, json_quoted(nonce) + after_nonce(hash, ttl));
    three_group(t3, decimal(issued_at as nat), after_issue(hash, nonce, ttl));
    three_group(
        t2,
        "},\"issued_at\":"@,
        decimal(issued_at as nat) + after_issue(hash, nonce, ttl),
    );
    three_group(t1, budget_members(pairs), after_budget(hash, nonce, issued_at, ttl));
}

proof fn marks_are_no_digits(hash: Seq<char>, nonce: Seq<char>, issued_at: u64, ttl: u64)
    ensures
        after_budget(hash, nonce, issued_at, ttl).len() > 0,
        after_budget(hash, nonce, issued_at, ttl)[0] == '}',
        goes_on(after_issue(hash, nonce, ttl)),
        goes_on("}"@),
{
    reveal_strlit("},\"issued_at\":");
    reveal_strlit(",\"nonce\":");
    reveal_strlit("}");
    assert("},\"issued_at\":"@[0] == '}');
    assert(",\"nonce\":"@[0] == ',');
    assert("}"@[0] == '}');
}

/// The text that is signed tells what was agreed to: two consents with the same text name the same
/// plan, the same budget, the same nonce and the same term.
pub proof fn the_signed_text_tells_everything(
    hash: Seq<char>,
    pairs: Seq<(Seq<char>, u64)>,
    nonce: Seq<char>,
    issued_at: u64,
    ttl: u64,
    hash2: Seq<char>,
    pairs2: Seq<(Seq<char>, u64)>,
    nonce2: Seq<char>,
    issued_at2: u64,
    ttl2: u64,
)
    requires
        mac_text(hash, pairs, nonce, issued_at, ttl) == mac_text(
            hash2,
            pairs2,
            nonce2,
            issued_at2,
            ttl2,
        ),
    ensures
        hash == hash2,
        pairs == pairs2,
        nonce == nonce2,
        issued_at == issued_at2,
        ttl == ttl2,
{
    text_in_parts(hash, pairs, nonce, issued_at, ttl);
    text_in_parts(hash2, pairs2, nonce2, issued_at2, ttl2);
    marks_are_no_digits(hash, nonce, issued_at, ttl);
    marks_are_no_digits(hash2, nonce2, issued_at2, ttl2);
    let b = after_budget(hash, nonce, issued_at, ttl);
    let b2 = after_budget(hash2, nonce2, issued_at2, ttl2);
    let i = after_issue(hash, nonce, ttl);
    let i2 = after_issue(hash2, nonce2, ttl2);
    let n = after_nonce(hash, ttl);
    let n2 = after_nonce(hash2, ttl2);
    let head = "{\"budget\":{"@;
    same_heads(head, budget_members(pairs) + b, head, budget_members(pairs2) + b2);
    members_are_told_apart(pairs, b, pairs2, b2);
    let mark = "},\"issued_at\":"@;
    same_heads(mark, decimal(issued_at as nat) + i, mark, decimal(issued_at2 as nat) + i2);
    numbers_are_told_apart(issued_at as nat, i, issued_at2 as nat, i2);
    let mark = ",\"nonce\":"@;
    same_heads(mark, json_quoted(nonce) + n, mark, json_quoted(nonce2) + n2);
    quotes_are_told_apart(nonce, n, nonce2, n2);
    let mark = ",\"plan_hash\":"@;
    let (e, e2) = (after_hash(ttl), after_hash(ttl2));
    same_heads(mark, json_quoted(hash) + e, mark, json_quoted(hash2) + e2);
    quotes_are_told_apart(hash, e, hash2, e2);
    let mark = ",\"ttl_secs\":"@;
    same_heads(mark, decimal(ttl as nat) + "}"@, mark, decimal(ttl2 as nat) + "}"@);
    numbers_are_told_apart(ttl as nat, "}"@, ttl2 as nat, "}"@);
}

} // verus!
