//! What holds of the store, of the accounts in it, of what an earlier run left behind, and of the
//! texts that name processes and ports.

use crate::error::Refusal;
use crate::json::{member, Num, Value};
use crate::reconcile::{
    count_dealt, dealt, entry_fault, journal_fault, lives, pending_places, places_of, records_fault,
    Behind, Dealt, Remains, StoredEntry,
};
use crate::records::{FragView, Held, Incarnation, Lease, Target, Transport};
use crate::store::{
    balance_of, begin_fault, count_pool_fault, counted, holds_cap, lease_of, read_fault, seen,
    settled_store, spent_by, Binding, Ran, Stored,
};
use crate::substrate::{
    behind_last_paren, capture_start, first_colon, generation_fits, generation_of, may_hold,
    names_process, owner_of, pid_in, port_of, stat_of, start_agrees, CaptureStep, CLASS_CAP,
    CLASS_CAP_COUNT, CLASS_FILE_LOCK, CLASS_PORT, CLASS_PROCESS,
};
use crate::text::{
    decimal, decimal_is_parsed, digits_value, is_digit, is_space, lex_lt, parsed_number,
    unsigned_part, word_fits, word_len, words,
};
use vstd::prelude::*;

verus! {

/// A transaction begins exactly when the store knows its state, the database is at the revision
/// that the store committed last, and there is a next revision. What is read counts on the same
/// terms, except that no next revision is needed. A store that saw another revision knows its
/// state no longer.
pub proof fn a_store_trusts_its_own_revision<L>(s: Stored<L>, found: i64)
    ensures
        begin_fault(s, found) is None <==> s.writable && found == s.revision && found < i64::MAX,
        read_fault(s, found) is None <==> s.writable && found == s.revision,
        seen(s, found).writable <==> s.writable && found == s.revision,
        seen(s, found).ledger == s.ledger,
        seen(s, found).revision == s.revision,
        begin_fault(s, found) is None ==> read_fault(s, found) is None,
        found != s.revision ==> read_fault(seen(s, found), s.revision) is Some && begin_fault(
            seen(s, found),
            s.revision,
        ) is Some,
{
}

/// Only a commit that went through changes what the store shows: then it shows what was staged, at
/// the next revision; otherwise it shows what it showed, and where the end was not seen it does
/// not trust itself.
pub proof fn only_a_commit_shows<L, T>(
    s: Stored<L>,
    staged: L,
    next: i64,
    ran: Ran<T>,
    ended: bool,
)
    ensures
        ran is Done && ended ==> settled_store(s, staged, next, ran, ended).ledger == staged
            && settled_store(s, staged, next, ran, ended).revision == next
            && settled_store(s, staged, next, ran, ended).writable == s.writable,
        !(ran is Done && ended) ==> settled_store(s, staged, next, ran, ended).ledger == s.ledger
            && settled_store(s, staged, next, ran, ended).revision == s.revision,
        settled_store(s, staged, next, ran, ended).writable <==> s.writable && ended,
{
}

/// What is spent of a pool is the sum over the holdings that occupy it: a holding counts with its
/// number exactly when it is of that class and instance and is not retired.
pub proof fn a_pool_is_spent_by_its_holdings(
    hs: Seq<Held>,
    class: Seq<char>,
    instance: Seq<char>,
    n: nat,
)
    requires
        n < hs.len(),
    ensures
        spent_by(hs, class, instance, 0) == 0,
        ({
            let h = hs[n as int];
            let more = spent_by(hs, class, instance, n + 1) - spent_by(hs, class, instance, n);
            &&& h.class_id == class && h.instance == instance && !(h.state is Retired) ==> match h.frag {
                FragView::Count(Some(k)) => more == k,
                _ => more == 0,
            }
            &&& h.class_id != class || h.instance != instance || h.state is Retired ==> more == 0
        }),
{
}

/// What is left of a pool and what is spent of it make up its capacity; a pool that is overdrawn or
/// has no capacity has no balance.
pub proof fn a_balance_adds_up(capacity: Option<FragView>, spent: u64)
    ensures
        balance_of(capacity, spent) matches Ok(left) ==> capacity == Some(
            FragView::Count(Some((left + spent) as u64)),
        ) && left + spent <= u64::MAX,
        capacity matches Some(FragView::Count(Some(cap))) ==> (balance_of(capacity, spent) is Ok
            <==> spent <= cap),
        !(capacity matches Some(FragView::Count(Some(_)))) ==> balance_of(capacity, spent) is Err,
{
}

/// A pool may be opened again only as it was: bound to the same account, effect and owner, and with
/// the same capacity.
pub proof fn a_pool_is_opened_as_it_was(
    existing: Option<Binding>,
    account: Seq<char>,
    effect: Seq<char>,
    owner: Seq<char>,
    stored: Option<FragView>,
    capacity: u64,
)
    ensures
        count_pool_fault(existing, account, effect, owner, stored, capacity) is None <==> {
            &&& existing matches Some(b) ==> b.owner@ == owner && b.class_id@ == CLASS_CAP_COUNT@
                && b.instance@ == crate::recovery::pool_name(account, effect)
            &&& stored matches Some(f) ==> f == FragView::Count(Some(capacity))
        },
{
}

/// A lease lasts until the end that is set, and without bound where none is.
pub proof fn a_lease_lasts_until_its_end(expires_at: Option<u64>)
    ensures
        expires_at matches Some(t) ==> lease_of(expires_at) == Lease::Until(t),
        expires_at is None ==> lease_of(expires_at) is Unbounded,
{
}

/// The holdings of a class are counted as active and as retired, each by its own state; one that is
/// being retired counts as neither.
pub proof fn holdings_are_counted_by_state(hs: Seq<Held>, class: Seq<char>, n: nat)
    requires
        n < hs.len(),
    ensures
        counted(hs, class, 0) == (0nat, 0nat),
        counted(hs, class, n + 1).0 - counted(hs, class, n).0 == if hs[n as int].class_id == class
            && hs[n as int].state is Active {
            1int
        } else {
            0int
        },
        counted(hs, class, n + 1).1 - counted(hs, class, n).1 == if hs[n as int].class_id == class
            && hs[n as int].state is Retired {
            1int
        } else {
            0int
        },
{
}

/// A holding stands for a capability exactly when it is active, of the class of capabilities, and
/// its instance is the capability.
pub proof fn a_capability_is_held_while_active(h: Held, account: Seq<char>)
    ensures
        holds_cap(h, account) <==> h.state is Active && h.class_id == CLASS_CAP@ && h.instance
            == account,
        h.state is Retiring || h.state is Retired ==> !holds_cap(h, account),
{
}

/// A process that is found lives on as the recorded one exactly when a process of its number runs and
/// started when the record says, or the record says nothing of its start.
pub proof fn who_lives_on(pid: u32, start: u64, found: Option<u64>)
    ensures
        lives(pid, start, found) ==> pid > 0 && found is Some,
        start > 0 ==> (lives(pid, start, found) <==> pid > 0 && found == Some(start)),
        start == 0 ==> (lives(pid, start, found) <==> pid > 0 && found is Some),
{
}

/// What is done with what was left behind: a process that lives on is killed and any other is gone; a
/// port is free exactly when it can be bound; the file of a lock is kept exactly while its owner
/// lives on.
pub proof fn what_was_left_is_dealt_with(r: Remains, found: Option<u64>, bindable: bool)
    ensures
        r matches Remains::Process { id, pid, start } ==> (dealt(r, found, bindable) == Dealt::Kill(
            pid,
        ) <==> lives(pid, start, found)) && (dealt(r, found, bindable) == Dealt::Gone <==> !lives(
            pid,
            start,
            found,
        )),
        r is Port ==> (dealt(r, found, bindable) == Dealt::Free <==> bindable) && (dealt(
            r,
            found,
            bindable,
        ) == Dealt::Bound <==> !bindable),
        r matches Remains::Lock { id, path, owner, owner_start } ==> (dealt(r, found, bindable)
            == Dealt::Keep <==> owner is Some && lives(owner->0, owner_start, found)) && (dealt(
            r,
            found,
            bindable,
        ) == Dealt::Remove <==> !(owner is Some && lives(owner->0, owner_start, found))),
{
}

/// What was dealt with is counted once each: over all ways the counts make up the number of things.
pub proof fn dealings_are_counted_once(ds: Seq<Dealt>, n: nat)
    requires
        n <= ds.len(),
    ensures
        count_dealt(ds, Dealt::Kill(0), n) + count_dealt(ds, Dealt::Gone, n) + count_dealt(
            ds,
            Dealt::Free,
            n,
        ) + count_dealt(ds, Dealt::Bound, n) + count_dealt(ds, Dealt::Keep, n) + count_dealt(
            ds,
            Dealt::Remove,
            n,
        ) == n,
    decreases n,
{
    if n > 0 {
        dealings_are_counted_once(ds, (n - 1) as nat);
    }
}

/// The places of a class are exactly the places of the rows of that class, in order.
pub proof fn places_are_of_the_class(rows: Seq<Behind>, class: Seq<char>, n: nat, k: int)
    requires
        n <= rows.len(),
    ensures
        places_of(rows, class, n).contains(k) <==> 0 <= k < n && rows[k].class@ == class,
        forall|i: int, j: int|
            0 <= i < j < places_of(rows, class, n).len() ==> #[trigger] places_of(rows, class, n)[i]
                < #[trigger] places_of(rows, class, n)[j],
        forall|i: int|
            0 <= i < places_of(rows, class, n).len() ==> 0 <= #[trigger] places_of(
                rows,
                class,
                n,
            )[i] < n,
    decreases n,
{
    if n > 0 {
        places_are_of_the_class(rows, class, (n - 1) as nat, k);
        in_push(places_of(rows, class, (n - 1) as nat), n - 1, k);
    }
}

proof fn in_push<T>(s: Seq<T>, x: T, y: T)
    ensures
        s.push(x).contains(y) <==> s.contains(y) || x == y,
{
    if s.contains(y) {
        let i = s.index_of(y);
        assert(s.push(x)[i] == y);
    }
    if s.push(x).contains(y) {
        let i = s.push(x).index_of(y);
        if i < s.len() {
            assert(s[i] == y);
        }
    }
    assert(s.push(x)[s.len() as int] == x);
}

/// Records are refused exactly when one of the rows that can be dealt with is at fault, and the first
/// such fault is told.
pub proof fn the_first_fault_is_told(rows: Seq<Behind>, n: nat)
    requires
        n <= rows.len(),
    ensures
        records_fault(rows, n) is None <==> forall|i: int|
            0 <= i < n && may_hold((#[trigger] rows[i]).class@)
                ==> crate::host_cleanup::substrate_fault(rows[i].class@, rows[i].detail@) is None,
    decreases n,
{
    if n > 0 {
        the_first_fault_is_told(rows, (n - 1) as nat);
        assert(rows[n - 1] == rows[n - 1]);
    }
}

/// The entries of the journal that are pending are those of the holdings that are asked about, each
/// in its place; and the journal is refused exactly when one of its rows is at fault.
pub proof fn pending_entries_are_of_the_holdings(
    rows: Seq<StoredEntry>,
    holdings: Seq<u64>,
    n: nat,
    k: int,
)
    requires
        n <= rows.len(),
    ensures
        pending_places(rows, holdings, n).contains(k) <==> 0 <= k < n && rows[k].holding_id >= 0
            && holdings.contains(rows[k].holding_id as u64),
        journal_fault(rows, holdings, n) is None <==> forall|i: int|
            0 <= i < n ==> entry_fault(&#[trigger] rows[i], holdings) is None,
        forall|r: StoredEntry| r.holding_id < 0 ==> (#[trigger] entry_fault(&r, holdings)) is Some,
    decreases n,
{
    if n > 0 {
        pending_entries_are_of_the_holdings(rows, holdings, (n - 1) as nat, k);
        in_push(pending_places(rows, holdings, (n - 1) as nat), n - 1, k);
        assert(rows[n - 1] == rows[n - 1]);
    }
}

/// What stands behind the last closing parenthesis: the rest of the text from there on, in which
/// there is none; and a text has no such rest only where it has no parenthesis.
pub proof fn the_rest_is_behind_the_last(s: Seq<char>)
    ensures
        match behind_last_paren(s) {
            Some(t) => !t.contains(')') && exists|before: Seq<char>| s == #[trigger] before.push(')')
                + t,
            None => !s.contains(')'),
        },
    decreases s.len(),
{
    if s.len() > 0 {
        let init = s.drop_last();
        the_rest_is_behind_the_last(init);
        assert(init.push(s.last()) =~= s);
        if s.last() == ')' {
            let none = Seq::<char>::empty();
            assert(s =~= init.push(')') + none);
        } else {
            match behind_last_paren(init) {
                Some(t) => {
                    let before = choose|before: Seq<char>| init == #[trigger] before.push(')') + t;
                    in_push(t, s.last(), ')');
                    assert(s =~= before.push(')') + t.push(s.last()));
                },
                None => {
                    in_push(init, s.last(), ')');
                },
            }
        }
    }
}

/// The place of the first colon: a colon stands there and nowhere before, or there is none at all.
pub proof fn the_first_colon_is_the_first(s: Seq<char>)
    ensures
        first_colon(s) <= s.len(),
        first_colon(s) < s.len() ==> s[first_colon(s) as int] == ':',
        forall|i: int| 0 <= i < first_colon(s) ==> #[trigger] s[i] != ':',
    decreases s.len(),
{
    if s.len() > 0 && s[0] != ':' {
        the_first_colon_is_the_first(s.skip(1));
        if first_colon(s.skip(1)) < s.skip(1).len() {
            assert(s.skip(1)[first_colon(s.skip(1)) as int] == s[first_colon(s.skip(1)) as int
                + 1]);
        }
        assert forall|i: int| 0 <= i < first_colon(s) implies #[trigger] s[i] != ':' by {
            if i > 0 {
                assert(s[i] == s.skip(1)[i - 1]);
            }
        }
    }
}

proof fn colon_after(name: Seq<char>, rest: Seq<char>)
    requires
        !name.contains(':'),
    ensures
        first_colon(name.push(':') + rest) == name.len(),
    decreases name.len(),
{
    let s = name.push(':') + rest;
    if name.len() > 0 {
        assert(s[0] == name[0]);
        assert(name.contains(name[0]));
        let tail = name.skip(1);
        assert(s.skip(1) =~= tail.push(':') + rest);
        if tail.contains(':') {
            let i = tail.index_of(':');
            assert(name[i + 1] == ':');
        }
        colon_after(tail, rest);
    } else {
        assert(s[0] == ':');
    }
}

/// A port is named by its transport, a colon and its number, and only so: the number is read in full
/// and fits a port.
pub proof fn a_port_is_transport_and_number(instance: Seq<char>, number: Seq<char>, n: u16)
    ensures
        parsed_number(number, u16::MAX as nat) == Some(n as nat) ==> {
            &&& port_of("tcp:"@ + number) == Ok::<(Transport, u16), Refusal>((Transport::Tcp, n))
            &&& port_of("udp:"@ + number) == Ok::<(Transport, u16), Refusal>((Transport::Udp, n))
        },
        port_of(instance) matches Ok(p) ==> exists|rest: Seq<char>|
            #![trigger parsed_number(rest, u16::MAX as nat)]
            parsed_number(rest, u16::MAX as nat) == Some(p.1 as nat) && instance == (if p.0
                == Transport::Tcp {
                "tcp:"@
            } else {
                "udp:"@
            }) + rest,
{
    reveal_strlit("tcp:");
    reveal_strlit("udp:");
    reveal_strlit("tcp");
    reveal_strlit("udp");
    assert("tcp:"@ =~= "tcp"@.push(':'));
    assert("udp:"@ =~= "udp"@.push(':'));
    assert("tcp"@[0] != "udp"@[0]);
    assert("tcp"@ =~= seq!['t', 'c', 'p']);
    assert("udp"@ =~= seq!['u', 'd', 'p']);
    assert(!"tcp"@.contains(':'));
    assert(!"udp"@.contains(':'));
    colon_after("tcp"@, number);
    colon_after("udp"@, number);
    assert(("tcp:"@ + number).take(3) =~= "tcp"@);
    assert(("udp:"@ + number).take(3) =~= "udp"@);
    assert(("tcp:"@ + number).skip(4) =~= number);
    assert(("udp:"@ + number).skip(4) =~= number);
    if let Ok(p) = port_of(instance) {
        the_first_colon_is_the_first(instance);
        let at = first_colon(instance) as int;
        let rest = instance.skip(at + 1);
        assert(instance =~= instance.take(at).push(':') + rest);
        assert(parsed_number(rest, u16::MAX as nat) == Some(p.1 as nat));
    }
}

/// The decimal notations of two numbers differ where the numbers do, and have no colon in them.
pub proof fn numbers_are_told_apart(a: nat, b: nat)
    ensures
        decimal(a) == decimal(b) ==> a == b,
        !decimal(a).contains(':'),
{
    decimal_is_parsed(a);
    decimal_is_parsed(b);
    if decimal(a).contains(':') {
        let i = decimal(a).index_of(':');
        assert(is_digit(decimal(a)[i]));
    }
}

/// Two incarnations have the same mark only if they have the same number and the same start.
pub proof fn a_mark_tells_incarnations_apart(p: u32, s: u64, q: u32, t: u64)
    ensures
        generation_of(p, s) == generation_of(q, t) ==> p == q && s == t,
{
    if generation_of(p, s) == generation_of(q, t) {
        reveal_strlit(":");
        assert(":"@ =~= seq![':']);
        let a = decimal(p as nat);
        let b = decimal(q as nat);
        let x = decimal(s as nat);
        let y = decimal(t as nat);
        numbers_are_told_apart(p as nat, q as nat);
        numbers_are_told_apart(q as nat, p as nat);
        numbers_are_told_apart(s as nat, t as nat);
        colon_after(a, x);
        colon_after(b, y);
        assert(generation_of(p, s) =~= a.push(':') + x);
        assert(generation_of(q, t) =~= b.push(':') + y);
        let g = generation_of(p, s);
        assert(a.len() == b.len());
        assert(a =~= g.take(a.len() as int));
        assert(b =~= g.take(b.len() as int));
        assert(x =~= g.skip(a.len() as int + 1));
        assert(y =~= g.skip(b.len() as int + 1));
    }
}

/// A number in a record is a process number only if it fits one, and is that number.
pub proof fn a_recorded_number_is_itself(v: Value, field: Seq<char>)
    ensures
        pid_in(v, field) matches Some(p) ==> member(v, field) == Some(
            Value::Number(Num::Nat(p as u64)),
        ),
        member(v, field) matches Some(Value::Number(Num::Nat(n))) ==> (pid_in(v, field) is Some
            <==> n <= 0xffff_ffff),
{
}

/// What has to be looked at before something is held: a process that is named by a positive number,
/// a file, or nothing for a port whose instance names one; anything else cannot be held.
pub proof fn what_is_captured(class: Seq<char>, instance: Seq<char>, v: Value)
    ensures
        capture_start(class, instance, v) is Ok ==> v is Object && may_hold(class),
        capture_start(class, instance, v) matches Ok(CaptureStep::Observe(p)) ==> class
            == CLASS_PROCESS@ && 0 < p <= 0x7fff_ffff && pid_in(v, "pid"@) == Some(p),
        capture_start(class, instance, v) matches Ok(CaptureStep::Inspect) ==> class
            == CLASS_FILE_LOCK@,
        capture_start(class, instance, v) matches Ok(CaptureStep::Ready { transport, port })
            ==> class == CLASS_PORT@ && port_of(instance) == Ok::<(Transport, u16), Refusal>(
            (transport, port),
        ),
        v is Object && class == CLASS_PROCESS@ && (pid_in(v, "pid"@) matches Some(p) && 0 < p
            <= 0x7fff_ffff) ==> capture_start(class, instance, v) is Ok,
{
}

/// A start that is told must be the start that is seen, a lock must be a regular file, and the mark of
/// a process must be that of its own incarnation.
pub proof fn what_is_told_must_agree(
    v: Value,
    field: Seq<char>,
    start: u64,
    is_file: bool,
    w: Incarnation,
    generation: Seq<char>,
)
    ensures
        start_agrees(v, field, start) <==> member(v, field) is None || member(v, field) == Some(
            Value::Number(Num::Nat(start)),
        ),
        owner_of(v, is_file) is Ok ==> is_file,
        owner_of(v, is_file) matches Ok(Some(p)) ==> pid_in(v, "owner_pid"@) == Some(p),
        is_file && member(v, "owner_pid"@) is None ==> owner_of(v, is_file) == Ok::<
            Option<u32>,
            Refusal,
        >(None),
        generation_fits(Target::Process(w), generation) <==> generation == generation_of(
            w.pid,
            w.start_ticks,
        ),
        names_process(w) <==> 1 <= w.pid <= 0x7fff_ffff && w.start_ticks >= 1 && w.boot.len() >= 1,
{
}

/// The words of a text are not empty and have no white space in them, and white space around a word
/// changes nothing.
pub proof fn words_are_between_spaces(s: Seq<char>, c: char)
    ensures
        forall|i: int| 0 <= i < words(s).len() ==> (#[trigger] words(s)[i]).len() > 0,
        forall|i: int, j: int|
            0 <= i < words(s).len() && 0 <= j < words(s)[i].len() ==> !is_space(
                #[trigger] words(s)[i][j],
            ),
        is_space(c) ==> words(seq![c] + s) == words(s),
        s.len() > 0 && (forall|i: int| 0 <= i < s.len() ==> !is_space(#[trigger] s[i])) ==> words(s)
            == seq![s],
    decreases s.len(),
{
    if is_space(c) {
        let t = seq![c] + s;
        assert(t[0] == c);
        assert(t.skip(1) =~= s);
    }
    if s.len() > 0 {
        if is_space(s[0]) {
            words_are_between_spaces(s.skip(1), c);
            assert(words(s) == words(s.skip(1)));
        } else {
            word_fits(s);
            let n = word_len(s) as int;
            word_has_no_space(s);
            let rest = s.skip(n);
            words_are_between_spaces(rest, c);
            let all = words(s);
            assert(all == seq![s.take(n)] + words(rest));
            assert forall|i: int| 0 <= i < all.len() implies (#[trigger] all[i]).len() > 0 by {
                if i > 0 {
                    assert(all[i] == words(rest)[i - 1]);
                }
            }
            assert forall|i: int, j: int|
                0 <= i < all.len() && 0 <= j < all[i].len() implies !is_space(
                #[trigger] all[i][j],
            ) by {
                if i > 0 {
                    assert(all[i] == words(rest)[i - 1]);
                    assert(!is_space(words(rest)[i - 1][j]));
                } else {
                    assert(all[0] == s.take(n));
                    assert(s[j] == s.take(n)[j]);
                }
            }
            if forall|i: int| 0 <= i < s.len() ==> !is_space(#[trigger] s[i]) {
                if n < s.len() {
                    assert(is_space(s[n]));
                }
                assert(s.take(n) =~= s);
                assert(rest =~= Seq::<char>::empty());
                assert(words(rest) =~= Seq::<Seq<char>>::empty());
                assert(all =~= seq![s]);
            }
        }
    } else {
        assert(words(s).len() == 0);
    }
}

proof fn word_has_no_space(s: Seq<char>)
    ensures
        word_len(s) <= s.len(),
        forall|i: int| 0 <= i < word_len(s) ==> !is_space(#[trigger] s[i]),
        word_len(s) < s.len() ==> is_space(s[word_len(s) as int]),
    decreases s.len(),
{
    if s.len() > 0 && !is_space(s[0]) {
        let t = s.skip(1);
        word_has_no_space(t);
        assert forall|i: int| 0 <= i < word_len(s) implies !is_space(#[trigger] s[i]) by {
            if i > 0 {
                assert(s[i] == t[i - 1]);
            }
        }
        if word_len(s) < s.len() {
            assert(s[word_len(s) as int] == t[word_len(t) as int]);
        }
    }
}

/// The statistics of a process are read behind its name: from the twentieth word there the time of its
/// start, and from the first whether it is dead already.
pub proof fn statistics_are_read_behind_the_name(
    before: Seq<char>,
    rest: Seq<char>,
    start: u64,
)
    requires
        !rest.contains(')'),
    ensures
        words(rest).len() >= 20 && parsed_number(words(rest)[19], u64::MAX as nat) == Some(
            start as nat,
        ) ==> stat_of(before.push(')') + rest) == Ok::<(u64, bool), Seq<char>>(
            (start, words(rest)[0] == seq!['Z'] || words(rest)[0] == seq!['X']),
        ),
        words(rest).len() < 20 ==> stat_of(before.push(')') + rest) is Err,
{
    reveal_strlit("Z");
    reveal_strlit("X");
    assert("Z"@ =~= seq!['Z']);
    assert("X"@ =~= seq!['X']);
    rest_after(before, rest);
}

proof fn rest_after(before: Seq<char>, rest: Seq<char>)
    requires
        !rest.contains(')'),
    ensures
        behind_last_paren(before.push(')') + rest) == Some(rest),
    decreases rest.len(),
{
    let s = before.push(')') + rest;
    if rest.len() == 0 {
        assert(s.last() == ')');
        assert(rest =~= Seq::<char>::empty());
    } else {
        let init = rest.drop_last();
        assert(s.last() == rest.last());
        assert(rest.contains(rest.last()));
        assert(s.drop_last() =~= before.push(')') + init);
        if init.contains(')') {
            let i = init.index_of(')');
            assert(rest[i] == ')');
        }
        rest_after(before, init);
        assert(init.push(rest.last()) =~= rest);
    }
}

/// A text spells a number exactly when it is made of decimal digits, with or without a plus sign; each
/// further digit multiplies by ten and adds; and what is above the limit is refused.
pub proof fn digits_spell_numbers(s: Seq<char>, c: char, max: nat)
    ensures
        is_digit(c) ==> digits_value(s.push(c)) == 10 * digits_value(s) + (c as int - '0' as int),
        digits_value(Seq::empty()) == 0,
        parsed_number(s, max) matches Some(n) ==> n <= max && n == digits_value(unsigned_part(s))
            && unsigned_part(s).len() > 0,
        parsed_number(Seq::empty(), max) is None,
        s.len() > 0 && !is_digit(s[s.len() - 1]) ==> parsed_number(s, max) is None,
        s.len() > 0 && !is_digit(s[0]) && s[0] != '+' ==> parsed_number(s, max) is None,
{
    assert(s.push(c).drop_last() =~= s);
    if s.len() > 0 && !is_digit(s[s.len() - 1]) {
        let d = unsigned_part(s);
        if d.len() > 0 {
            assert(d[d.len() - 1] == s[s.len() - 1]);
        }
    }
    if s.len() > 0 && !is_digit(s[0]) && s[0] != '+' {
        assert(unsigned_part(s)[0] == s[0]);
    }
}

/// A text stands before another exactly when it is a proper beginning of it, or has the smaller
/// character at the first place where they differ.
pub proof fn the_order_goes_by_the_first_difference(a: Seq<char>, b: Seq<char>, k: int)
    requires
        0 <= k <= a.len(),
        k <= b.len(),
        forall|i: int| 0 <= i < k ==> a[i] == b[i],
    ensures
        k == a.len() ==> (lex_lt(a, b) <==> a.len() < b.len()),
        k == b.len() ==> !lex_lt(a, b),
        k < a.len() && k < b.len() && a[k] != b[k] ==> (lex_lt(a, b) <==> a[k] < b[k]),
    decreases k,
{
    if k > 0 {
        let x = a.drop_first();
        let y = b.drop_first();
        assert(a[0] == b[0]);
        assert forall|i: int| 0 <= i < k - 1 implies x[i] == y[i] by {
            assert(a[i + 1] == b[i + 1]);
        }
        the_order_goes_by_the_first_difference(x, y, k - 1);
        if k < a.len() && k < b.len() {
            assert(x[k - 1] == a[k]);
            assert(y[k - 1] == b[k]);
        }
    }
}

} // verus!
