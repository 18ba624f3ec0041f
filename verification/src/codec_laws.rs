//! What holds of bytes on the wire, of digests as text, and of the order of numbers.

use crate::cas::digits_of;
use crate::chunk::{chunk_bytes, le_bytes, le_value, next_chunk, stream_of, ChunkError};
use crate::digest::{hex_chars, hex_digit, is_hex_digit};
use crate::eval::{asked, understood, Ask, Dialect, Read, ReadKind, Reply};
use crate::frame::{frame_bytes, next_frame, FrameError};
use crate::json::{nat_rank, top_bit, value_relation, Num, Value};
use crate::text::Rel;
use vstd::arithmetic::power2::{lemma2_to64, lemma2_to64_rest, lemma_pow2_adds, lemma_pow2_pos, lemma_pow2_unfold, pow2};
use vstd::prelude::*;

verus! {

/// Lengths are written with the low byte first: each byte counts for two hundred and fifty-six of
/// the one before it.
pub proof fn the_low_byte_comes_first(n: nat, b: Seq<u8>)
    requires
        n <= u32::MAX,
        b.len() == 4,
    ensures
        le_bytes(n).len() == 4,
        le_bytes(n)[0] == n % 256,
        n < 256 ==> le_bytes(n) == seq![n as u8, 0u8, 0u8, 0u8],
        le_value(b) % 256 == b[0],
        b[1] == 0 && b[2] == 0 && b[3] == 0 ==> le_value(b) == b[0],
        le_value(b) <= u32::MAX,
        le_value(b) >= 16777216 * b[3],
        le_bytes(le_value(b)) == b,
        le_value(le_bytes(n)) == n,
{
    crate::chunk::le_round_trip(n);
    if n < 256 {
        assert(le_bytes(n) =~= seq![n as u8, 0u8, 0u8, 0u8]);
    }
    let v = le_value(b);
    assert(v == b[0] + 256 * b[1] + 65536 * b[2] + 16777216 * b[3]);
    assert(v % 256 == b[0]);
    assert(v / 256 % 256 == b[1]);
    assert(v / 65536 % 256 == b[2]);
    assert(v / 16777216 % 256 == b[3]);
    assert(le_bytes(v) =~= b);
}

/// What is read as a chunk was written as that chunk, followed by the rest; a chunk of no bytes is
/// the end; and a length that is too large, or more than there is, is no chunk.
pub proof fn a_chunk_is_what_was_written(s: Seq<u8>)
    ensures
        next_chunk(s) matches Ok((Some(c), rest)) ==> s == chunk_bytes(c) + rest && 0 < c.len()
            <= crate::chunk::CHUNK_MAX,
        next_chunk(s) matches Ok((None, rest)) ==> s == seq![0u8, 0u8, 0u8, 0u8] + rest,
        s.len() < 4 ==> next_chunk(s) is Err,
        next_chunk(s) matches Err(ChunkError::TooLarge(n)) ==> s.len() >= 4 && n == le_value(
            s.take(4),
        ) && n > crate::chunk::CHUNK_MAX,
        s.len() >= 4 && 0 < le_value(s.take(4)) <= crate::chunk::CHUNK_MAX && s.len() - 4
            >= le_value(s.take(4)) ==> next_chunk(s) is Ok,
{
    if s.len() >= 4 {
        let b = s.take(4);
        the_low_byte_comes_first(0, b);
        let rest = s.skip(4);
        if let Ok((Some(c), after)) = next_chunk(s) {
            assert(c.len() == le_value(b));
            assert(s =~= b + c + after);
            assert(chunk_bytes(c) =~= b + c);
        }
        if let Ok((None, after)) = next_chunk(s) {
            assert(le_value(b) == 0);
            the_low_byte_comes_first(0, b);
            assert(b =~= seq![0u8, 0u8, 0u8, 0u8]);
            assert(s =~= b + after);
        }
    }
}

/// What is read as a frame was written as that frame, followed by the rest, and is no longer than a
/// frame may be; and what was written as such a frame is read.
pub proof fn a_frame_is_what_was_written(s: Seq<u8>, text: Seq<u8>, after: Seq<u8>)
    ensures
        next_frame(s) matches Ok((t, rest)) ==> s == frame_bytes(t) + rest && t.len()
            <= crate::frame::MAX_FRAME,
        next_frame(s) matches Err(FrameError::TooLarge(n)) ==> s.len() >= 4 && n == le_value(
            s.take(4),
        ) && n > crate::frame::MAX_FRAME,
        s.len() < 4 ==> next_frame(s) is Err,
        text.len() <= crate::frame::MAX_FRAME ==> next_frame(frame_bytes(text) + after) == Ok::<
            (Seq<u8>, Seq<u8>),
            FrameError,
        >((text, after)),
{
    if s.len() >= 4 {
        let b = s.take(4);
        the_low_byte_comes_first(0, b);
        if let Ok((t, rest)) = next_frame(s) {
            assert(t.len() == le_value(b));
            assert(s =~= b + t + rest);
            assert(frame_bytes(t) =~= b + t);
        }
    }
    if text.len() <= crate::frame::MAX_FRAME {
        let all = frame_bytes(text) + after;
        the_low_byte_comes_first(text.len(), le_bytes(text.len()));
        assert(all.take(4) =~= le_bytes(text.len()));
        assert(all.skip(4).take(text.len() as int) =~= text);
        assert(all.skip(4).skip(text.len() as int) =~= after);
    }
}

/// The limits of the wire: a chunk that is read has at most four mebibytes, a frame at most eight,
/// and content is written in pieces of at most one.
pub proof fn the_limits_of_the_wire()
    ensures
        crate::chunk::CHUNK_MAX == 4 * 1024 * 1024,
        crate::chunk::CHUNK_SIZE == 1024 * 1024,
        crate::frame::MAX_FRAME == 8 * 1024 * 1024,
{
}

/// How many pieces a content of a length is written in, without the end.
pub open spec fn pieces(len: nat) -> nat
    decreases len,
{
    if len == 0 {
        0
    } else if len <= crate::chunk::CHUNK_SIZE {
        1
    } else {
        1 + pieces((len - crate::chunk::CHUNK_SIZE) as nat)
    }
}

/// A content on the wire is as long as itself and four bytes for each piece and for the end.
pub proof fn a_stream_is_as_long_as_its_pieces(payload: Seq<u8>)
    ensures
        stream_of(payload).len() == payload.len() + 4 * (pieces(payload.len()) + 1),
    decreases payload.len(),
{
    if payload.len() > crate::chunk::CHUNK_SIZE {
        a_stream_is_as_long_as_its_pieces(payload.skip(crate::chunk::CHUNK_SIZE as int));
    }
}

/// The value of a hexadecimal digit in small letters.
pub open spec fn digit_value(c: char) -> int {
    if '0' <= c && c <= '9' {
        c as int - '0' as int
    } else {
        c as int - 'a' as int + 10
    }
}

/// A digest as text has two digits for each byte, the high half first, in small letters; and two
/// digests have the same text only if they are the same.
pub proof fn two_digits_spell_a_byte(a: Seq<u8>, b: Seq<u8>, i: int)
    requires
        0 <= i < a.len(),
    ensures
        hex_chars(a).len() == 2 * a.len(),
        16 * digit_value(hex_chars(a)[2 * i]) + digit_value(hex_chars(a)[2 * i + 1]) == a[i],
        0 <= digit_value(hex_chars(a)[2 * i]) < 16,
        !('A' <= hex_chars(a)[2 * i] && hex_chars(a)[2 * i] <= 'F'),
        hex_chars(a) == hex_chars(b) ==> a == b,
{
    spelled(a, i);
    if hex_chars(a) == hex_chars(b) {
        assert(hex_chars(a).len() == 2 * a.len());
        assert(hex_chars(b).len() == 2 * b.len());
        assert forall|k: int| 0 <= k < a.len() implies a[k] == b[k] by {
            spelled(a, k);
            spelled(b, k);
        }
        assert(a =~= b);
    }
}

proof fn spelled(a: Seq<u8>, i: int)
    requires
        0 <= i < a.len(),
    ensures
        16 * digit_value(hex_chars(a)[2 * i]) + digit_value(hex_chars(a)[2 * i + 1]) == a[i],
        0 <= digit_value(hex_chars(a)[2 * i]) < 16,
        !('A' <= hex_chars(a)[2 * i] && hex_chars(a)[2 * i] <= 'F'),
{
    let v = a[i] as int;
    assert((2 * i) % 2 == 0 && (2 * i) / 2 == i);
    assert((2 * i + 1) % 2 == 1 && (2 * i + 1) / 2 == i);
    assert(hex_chars(a)[2 * i] == hex_digit(v / 16));
    assert(hex_chars(a)[2 * i + 1] == hex_digit(v % 16));
    digit_is_spelled(v / 16);
    digit_is_spelled(v % 16);
}

proof fn digit_is_spelled(n: int)
    requires
        0 <= n < 16,
    ensures
        digit_value(hex_digit(n)) == n,
        !('A' <= hex_digit(n) && hex_digit(n) <= 'F'),
{
}

/// The digits of a content address are what stands behind its prefix: at least three, all of them
/// hexadecimal; and nothing else is a content address.
pub proof fn an_address_is_prefix_and_digits(id: Seq<char>, digits: Seq<char>)
    ensures
        digits_of(id) matches Some(d) ==> id == "blake3:"@ + d && d.len() >= 3 && forall|i: int|
            0 <= i < d.len() ==> is_hex_digit(#[trigger] d[i]),
        id == "blake3:"@ + digits && digits.len() >= 3 && (forall|i: int|
            0 <= i < digits.len() ==> is_hex_digit(#[trigger] digits[i])) ==> digits_of(id) == Some(
            digits,
        ),
{
    let p = "blake3:"@;
    if let Some(d) = digits_of(id) {
        assert(id =~= p + d);
        assert forall|i: int| 0 <= i < d.len() implies is_hex_digit(#[trigger] d[i]) by {
            assert(id[p.len() + i] == d[i]);
        }
    }
    if id == p + digits && digits.len() >= 3 && (forall|i: int|
        0 <= i < digits.len() ==> is_hex_digit(#[trigger] digits[i])) {
        assert(p.is_prefix_of(id));
        assert forall|i: int| p.len() <= i < id.len() implies is_hex_digit(#[trigger] id[i]) by {
            assert(id[i] == digits[i - p.len()]);
        }
        assert(id.skip(p.len() as int) =~= digits);
    }
}

/// A read is put as it stands, or to the broker as a verb: an observation by its own verb, with its
/// one argument bare or with all of them as a list, and a computation by the verb of the compute
/// plugin, with its name and its arguments.
pub proof fn a_read_is_put_as_it_stands(r: Read)
    ensures
        asked(Dialect::Direct, r) == Ask::Read(r),
        r.kind == ReadKind::Observe && r.args.len() == 1 ==> asked(Dialect::Brokered, r)
            == (Ask::Invoke { verb: r.name, args: r.args[0] }),
        r.kind == ReadKind::Observe && r.args.len() != 1 ==> asked(Dialect::Brokered, r)
            == (Ask::Invoke { verb: r.name, args: Value::Array(r.args) }),
        r.kind == ReadKind::Pure ==> (asked(Dialect::Brokered, r) matches Ask::Invoke { verb, args }
            && verb == "compute::run"@ && crate::json::member(args, "func"@) == Some(
            Value::Str(r.name),
        ) && crate::json::member(args, "args"@) == Some(Value::Array(r.args))),
{
    reveal_strlit("func");
    reveal_strlit("args");
    assert("func"@[0] != "args"@[0]);
    let ms = seq![("args"@, Value::Array(r.args)), ("func"@, Value::Str(r.name))];
    reveal_with_fuel(crate::json::find_member, 3);
    assert(ms.drop_first()[0] == ms[1]);
    assert(ms[0].0 == "args"@);
}

/// A read brings a value only if the world gave it, and that very value.
pub proof fn a_read_brings_what_was_given(d: Dialect, r: Read, reply: Reply)
    ensures
        understood(d, r, reply) matches Ok(v) ==> reply == Reply::Got(v),
        reply matches Reply::Got(v) ==> understood(d, r, reply) == Ok::<Value, Seq<char>>(v),
{
}

proof fn top_bounds(n: nat)
    requires
        n > 0,
    ensures
        pow2(top_bit(n)) <= n < 2 * pow2(top_bit(n)),
    decreases n,
{
    lemma2_to64();
    if n > 1 {
        top_bounds(n / 2);
        lemma_pow2_unfold(top_bit(n));
    }
}

proof fn top_grows(a: nat, b: nat)
    requires
        0 < a <= b,
    ensures
        top_bit(a) <= top_bit(b),
    decreases b,
{
    if a > 1 {
        top_grows(a / 2, b / 2);
    }
}

/// The bounds of the rank of a number with its highest digit at a place.
proof fn rank_bounds(n: nat)
    requires
        n > 0,
    ensures
        (top_bit(n) + 1023) * pow2(52) <= nat_rank(n) <= (top_bit(n) + 1024) * pow2(52),
        top_bit(n) <= 52 ==> nat_rank(n) < (top_bit(n) + 1024) * pow2(52),
{
    let k = top_bit(n);
    top_bounds(n);
    lemma2_to64_rest();
    let u = pow2(52) as int;
    assert(u == 0x10_0000_0000_0000);
    if k <= 52 {
        lemma_pow2_adds(k, (52 - k) as nat);
        lemma_pow2_pos((52 - k) as nat);
        let p = pow2(k) as int;
        let q = pow2((52 - k) as nat) as int;
        assert(p * q == u);
        assert(p * q <= n * q && n * q < 2 * (p * q)) by (nonlinear_arith)
            requires
                p <= n < 2 * p,
                q > 0,
        ;
    } else {
        lemma_pow2_adds(52, (k - 52) as nat);
        lemma_pow2_pos((k - 52) as nat);
        let unit = pow2((k - 52) as nat) as int;
        let m = n as int;
        assert(u * unit <= m && m < 2 * (u * unit)) by {
            assert(pow2(k) == u * unit);
        }
        assert(u <= m / unit && m / unit < 2 * u) by (nonlinear_arith)
            requires
                u * unit <= m,
                m < 2 * (u * unit),
                unit > 0,
        ;
    }
}

/// Larger natural numbers never rank lower, and up to the largest that a double-precision number
/// spells exactly they rank higher.
pub proof fn ranks_follow_the_numbers(a: nat, b: nat)
    requires
        a < b,
    ensures
        nat_rank(a) <= nat_rank(b),
        b < pow2(53) ==> nat_rank(a) < nat_rank(b),
{
    lemma2_to64_rest();
    lemma_pow2_unfold(53);
    let u = pow2(52) as int;
    assert(u == 0x10_0000_0000_0000);
    rank_bounds(b);
    if a == 0 {
    } else {
        rank_bounds(a);
        top_grows(a, b);
        top_bounds(b);
        let k = top_bit(a);
        let l = top_bit(b);
        if b < pow2(53) && l > 52 {
            pow2_grows(53, l);
        }
        if k < l {
            assert((k + 1024) * u <= (l + 1023) * u) by (nonlinear_arith)
                requires
                    k + 1 <= l,
                    u > 0,
            ;
        } else {
            same_top(a, b);
        }
    }
}

proof fn pow2_grows(a: nat, b: nat)
    requires
        a <= b,
    ensures
        pow2(a) <= pow2(b),
    decreases b - a,
{
    if a < b {
        pow2_grows(a, (b - 1) as nat);
        lemma_pow2_unfold(b);
        lemma_pow2_pos((b - 1) as nat);
    }
}

proof fn same_top(a: nat, b: nat)
    requires
        0 < a < b,
        top_bit(a) == top_bit(b),
    ensures
        nat_rank(a) <= nat_rank(b),
        top_bit(b) <= 52 ==> nat_rank(a) < nat_rank(b),
{
    let k = top_bit(a);
    if k <= 52 {
        lemma_pow2_pos((52 - k) as nat);
        let q = pow2((52 - k) as nat) as int;
        let x = a as int;
        let y = b as int;
        assert(x * q < y * q) by (nonlinear_arith)
            requires
                x < y,
                q > 0,
        ;
    } else {
        lemma_pow2_pos((k - 52) as nat);
        let unit = pow2((k - 52) as nat) as int;
        let x = a as int;
        let y = b as int;
        assert(x / unit <= y / unit) by (nonlinear_arith)
            requires
                x < y,
                unit > 0,
        ;
        if x / unit == y / unit {
            assert(x % unit < y % unit) by (nonlinear_arith)
                requires
                    x < y,
                    x / unit == y / unit,
                    unit > 0,
            ;
        }
    }
}

/// Comparing natural numbers compares the numbers, up to the largest that a double-precision number
/// spells exactly; negative numbers come before natural ones, and the more so the smaller they are.
pub proof fn numbers_compare_as_numbers(x: u64, y: u64, m: i64)
    ensures
        x < y && y < pow2(53) ==> value_relation(
            Value::Number(Num::Nat(x)),
            Value::Number(Num::Nat(y)),
        ) == Some(Rel::Before),
        value_relation(Value::Number(Num::Nat(x)), Value::Number(Num::Nat(x))) == Some(Rel::Same),
        x < y ==> value_relation(Value::Number(Num::Nat(x)), Value::Number(Num::Nat(y))) != Some(
            Rel::After,
        ),
        m < 0 ==> value_relation(Value::Number(Num::Neg(m)), Value::Number(Num::Nat(x))) == Some(
            Rel::Before,
        ),
        m < -1 && m > -0x20_0000_0000_0000 ==> value_relation(
            Value::Number(Num::Neg(m)),
            Value::Number(Num::Neg((m + 1) as i64)),
        ) == Some(Rel::Before),
{
    if x < y {
        ranks_follow_the_numbers(x as nat, y as nat);
    }
    lemma2_to64_rest();
    lemma_pow2_unfold(53);
    if m < 0 {
        ranks_follow_the_numbers(0, (-m) as nat);
        rank_bounds((-m) as nat);
        assert(nat_rank((-m) as nat) > 0) by {
            let u = pow2(52) as int;
            let k = top_bit((-m) as nat) as int;
            assert((k + 1023) * u > 0) by (nonlinear_arith)
                requires
                    k >= 0,
                    u > 0,
            ;
        }
        if x > 0 {
            ranks_follow_the_numbers(0, x as nat);
        }
        if m < -1 && m > -0x20_0000_0000_0000 {
            ranks_follow_the_numbers((-(m + 1)) as nat, (-m) as nat);
        }
    }
}

} // verus!
