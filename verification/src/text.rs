//! Strings as sequences of characters: the lexicographic order, equality, prefixes,
//! splitting and decimal notation.

use vstd::prelude::*;

verus! {

/// How two strings stand to each other in the lexicographic order.
#[derive(Debug, Clone, Copy, PartialEq, Eq, Structural)]
pub enum Rel {
    Before,
    Same,
    After,
}

/// The lexicographic order on characters by code point, which is also the order of the
/// UTF-8 encodings.
pub open spec fn lex_lt(a: Seq<char>, b: Seq<char>) -> bool
    decreases a.len(),
{
    if b.len() == 0 {
        false
    } else if a.len() == 0 {
        true
    } else if a[0] != b[0] {
        a[0] < b[0]
    } else {
        lex_lt(a.drop_first(), b.drop_first())
    }
}

/// The order has no string before itself.
pub proof fn lex_irreflexive(a: Seq<char>)
    ensures
        !lex_lt(a, a),
    decreases a.len(),
{
    if a.len() > 0 {
        lex_irreflexive(a.drop_first());
    }
}

/// Of two strings that each stand in line, the first is before the third.
pub proof fn lex_transitive(a: Seq<char>, b: Seq<char>, c: Seq<char>)
    requires
        lex_lt(a, b),
        lex_lt(b, c),
    ensures
        lex_lt(a, c),
    decreases a.len(),
{
    if a.len() > 0 && b.len() > 0 && c.len() > 0 {
        if a[0] == b[0] && b[0] == c[0] {
            lex_transitive(a.drop_first(), b.drop_first(), c.drop_first());
        }
    }
}

/// Two different strings are ordered one way or the other.
pub proof fn lex_total(a: Seq<char>, b: Seq<char>)
    ensures
        lex_lt(a, b) || a == b || lex_lt(b, a),
        !(lex_lt(a, b) && lex_lt(b, a)),
        lex_lt(a, b) ==> a != b,
    decreases a.len(),
{
    if a.len() > 0 && b.len() > 0 {
        lex_total(a.drop_first(), b.drop_first());
        if a[0] == b[0] && a.drop_first() == b.drop_first() {
            assert(a =~= seq![a[0]] + a.drop_first());
            assert(b =~= seq![b[0]] + b.drop_first());
        }
    } else if a.len() == 0 && b.len() == 0 {
        assert(a =~= b);
    }
}

/// The characters of a string.
pub fn chars_of(s: &str) -> (v: Vec<char>)
    ensures
        v@ == s@,
{
    let mut v: Vec<char> = Vec::new();
    for c in it: s.chars()
        invariant
            v@ == it.seq().take(it.index()),
            it.seq() == s@,
    {
        v.push(c);
    }
    v
}

/// Skipping an equal prefix changes nothing in the order.
proof fn lex_skip(a: Seq<char>, b: Seq<char>, k: int)
    requires
        0 <= k <= a.len(),
        k <= b.len(),
        forall|i: int| 0 <= i < k ==> a[i] == b[i],
    ensures
        lex_lt(a, b) == lex_lt(a.skip(k), b.skip(k)),
    decreases k,
{
    if k == 0 {
        assert(a.skip(0) =~= a);
        assert(b.skip(0) =~= b);
    } else {
        assert(a[0] == b[0]);
        lex_skip(a.drop_first(), b.drop_first(), k - 1);
        assert(a.drop_first().skip(k - 1) =~= a.skip(k));
        assert(b.drop_first().skip(k - 1) =~= b.skip(k));
    }
}

/// Compares two strings in the lexicographic order.
pub fn relate(a: &str, b: &str) -> (r: Rel)
    ensures
        r == Rel::Before <==> lex_lt(a@, b@),
        r == Rel::Same <==> a@ == b@,
        r == Rel::After <==> lex_lt(b@, a@),
{
    let va: Vec<char> = chars_of(a);
    let vb: Vec<char> = chars_of(b);
    let mut i: usize = 0;
    proof {
        lex_total(a@, b@);
    }
    while i < va.len() && i < vb.len() && va[i] == vb[i]
        invariant
            va@ == a@,
            vb@ == b@,
            i <= va.len(),
            i <= vb.len(),
            forall|j: int| 0 <= j < i ==> a@[j] == b@[j],
        decreases va.len() - i,
    {
        i = i + 1;
    }
    proof {
        lex_skip(a@, b@, i as int);
        lex_skip(b@, a@, i as int);
    }
    if i == va.len() {
        if i == vb.len() {
            assert(a@ =~= b@);
            Rel::Same
        } else {
            Rel::Before
        }
    } else if i == vb.len() {
        Rel::After
    } else if va[i] < vb[i] {
        Rel::Before
    } else {
        Rel::After
    }
}

/// Whether two strings hold the same characters.
pub fn same(a: &str, b: &str) -> (r: bool)
    ensures
        r == (a@ == b@),
{
    match relate(a, b) {
        Rel::Same => true,
        _ => false,
    }
}

/// Whether a piece stands in a text at a position.
pub open spec fn occurs_at(s: Seq<char>, piece: Seq<char>, i: int) -> bool {
    0 <= i && i + piece.len() <= s.len() && s.subrange(i, i + piece.len()) == piece
}

/// Whether a piece stands in a text at a position.
fn stands_at(v: &Vec<char>, p: &Vec<char>, i: usize) -> (r: bool)
    requires
        i + p@.len() <= v@.len(),
    ensures
        r == occurs_at(v@, p@, i as int),
{
    let n: usize = v.len();
    let mut k: usize = 0;
    while k < p.len()
        invariant
            k <= p@.len(),
            n == v@.len(),
            i + p@.len() <= n,
            forall|j: int| 0 <= j < k ==> v@[i + j] == p@[j],
        decreases p.len() - k,
    {
        if v[i + k] != p[k] {
            assert(v@.subrange(i as int, i + p@.len())[k as int] == v@[i + k]);
            return false;
        }
        k = k + 1;
    }
    assert(v@.subrange(i as int, i + p@.len()) =~= p@);
    true
}

/// The first place where a piece stands in a text.
pub fn find_first(s: &str, piece: &str) -> (r: Option<usize>)
    ensures
        match r {
            Some(i) => occurs_at(s@, piece@, i as int) && forall|j: int|
                0 <= j < i ==> !occurs_at(s@, piece@, j),
            None => forall|j: int| !occurs_at(s@, piece@, j),
        },
{
    let v: Vec<char> = chars_of(s);
    let p: Vec<char> = chars_of(piece);
    let n: usize = v.len();
    let m: usize = p.len();
    if m > n {
        return None;
    }
    let mut i: usize = 0;
    while i <= n - m
        invariant
            v@ == s@,
            p@ == piece@,
            n == v@.len(),
            m == p@.len(),
            m <= n,
            i <= n - m + 1,
            forall|j: int| 0 <= j < i ==> !occurs_at(s@, piece@, j),
        decreases n - m + 1 - i,
    {
        if stands_at(&v, &p, i) {
            return Some(i);
        }
        if i == n - m {
            return None;
        }
        i = i + 1;
    }
    None
}

/// The last place where a piece stands in a text.
pub fn find_last(s: &str, piece: &str) -> (r: Option<usize>)
    ensures
        match r {
            Some(i) => occurs_at(s@, piece@, i as int) && forall|j: int|
                i < j ==> !occurs_at(s@, piece@, j),
            None => forall|j: int| !occurs_at(s@, piece@, j),
        },
{
    let v: Vec<char> = chars_of(s);
    let p: Vec<char> = chars_of(piece);
    let n: usize = v.len();
    let m: usize = p.len();
    if m > n {
        return None;
    }
    let mut i: usize = n - m;
    loop
        invariant
            v@ == s@,
            p@ == piece@,
            n == v@.len(),
            m == p@.len(),
            m <= n,
            i <= n - m,
            forall|j: int| i < j ==> !occurs_at(s@, piece@, j),
        decreases i,
    {
        if stands_at(&v, &p, i) {
            return Some(i);
        }
        if i == 0 {
            return None;
        }
        i = i - 1;
    }
}

/// Whether a text starts with a piece.
pub fn starts_with(s: &str, piece: &str) -> (r: bool)
    ensures
        r == piece@.is_prefix_of(s@),
{
    let v: Vec<char> = chars_of(s);
    let p: Vec<char> = chars_of(piece);
    if p.len() > v.len() {
        return false;
    }
    stands_at(&v, &p, 0)
}

/// What follows a piece that a text starts with.
pub fn strip_prefix<'a>(s: &'a str, piece: &str) -> (r: Option<&'a str>)
    ensures
        match r {
            Some(t) => s@ == piece@ + t@,
            None => !piece@.is_prefix_of(s@),
        },
{
    if starts_with(s, piece) {
        let n: usize = s.unicode_len();
        let m: usize = piece.unicode_len();
        let t: &'a str = s.substring_char(m, n);
        assert(s@ =~= piece@ + t@);
        Some(t)
    } else {
        None
    }
}

/// What stands before a piece that a text ends with.
pub fn strip_suffix<'a>(s: &'a str, piece: &str) -> (r: Option<&'a str>)
    ensures
        match r {
            Some(t) => s@ == t@ + piece@,
            None => !piece@.is_suffix_of(s@),
        },
{
    let v: Vec<char> = chars_of(s);
    let p: Vec<char> = chars_of(piece);
    let n: usize = v.len();
    let m: usize = p.len();
    if m <= n && stands_at(&v, &p, n - m) {
        let t: &'a str = s.substring_char(0, n - m);
        assert(s@ =~= t@ + piece@);
        Some(t)
    } else {
        None
    }
}

/// The character of a decimal digit.
pub open spec fn digit_char(d: nat) -> char {
    (d + '0' as nat) as char
}

/// A number in decimal notation, without leading zeros.
pub open spec fn decimal(n: nat) -> Seq<char>
    decreases n,
{
    if n < 10 {
        seq![digit_char(n)]
    } else {
        decimal(n / 10).push(digit_char(n % 10))
    }
}

/// The text of a decimal digit.
pub(crate) fn digit_text(d: u64) -> (s: &'static str)
    requires
        d < 10,
    ensures
        s@ == seq![digit_char(d as nat)],
{
    proof {
        reveal_strlit("0");
        reveal_strlit("1");
        reveal_strlit("2");
        reveal_strlit("3");
        reveal_strlit("4");
        reveal_strlit("5");
        reveal_strlit("6");
        reveal_strlit("7");
        reveal_strlit("8");
        reveal_strlit("9");
    }
    let s: &'static str = match d {
        0 => "0",
        1 => "1",
        2 => "2",
        3 => "3",
        4 => "4",
        5 => "5",
        6 => "6",
        7 => "7",
        8 => "8",
        _ => "9",
    };
    assert(s@ =~= seq![digit_char(d as nat)]);
    s
}

/// Appends a number in decimal notation.
pub fn push_decimal(s: &mut String, n: u64)
    ensures
        final(s)@ == old(s)@ + decimal(n as nat),
    decreases n,
{
    if n >= 10 {
        push_decimal(s, n / 10);
    }
    s.append(digit_text(n % 10));
    assert(s@ =~= old(s)@ + decimal(n as nat));
}

/// A signed number in decimal notation.
pub open spec fn signed_decimal(n: int) -> Seq<char> {
    if n < 0 {
        "-"@ + decimal((-n) as nat)
    } else {
        decimal(n as nat)
    }
}

/// Appends a signed number in decimal notation.
pub(crate) fn push_signed(s: &mut String, n: i64)
    ensures
        final(s)@ == old(s)@ + signed_decimal(n as int),
{
    if n < 0 {
        s.append("-");
        if n == i64::MIN {
            push_decimal(s, 0x8000_0000_0000_0000);
        } else {
            push_decimal(s, (-n) as u64);
        }
    } else {
        push_decimal(s, n as u64);
    }
    assert(s@ =~= old(s)@ + signed_decimal(n as int));
}

/// A string in quotes, with the escapes of a debug format.
pub uninterp spec fn debug_text(s: Seq<char>) -> Seq<char>;

/// Formats a string through its `core::fmt::Debug`: the text depends on the string alone.
#[verifier::external_body]
pub(crate) fn debug_of(s: &str) -> (r: String)
    ensures
        r@ == debug_text(s@),
{
    format!("{s:?}")
}

/// Whether a character is a decimal digit.
pub open spec fn is_digit(c: char) -> bool {
    '0' <= c && c <= '9'
}

/// The number that decimal digits spell.
pub open spec fn digits_value(s: Seq<char>) -> nat
    decreases s.len(),
{
    if s.len() == 0 {
        0
    } else {
        10 * digits_value(s.drop_last()) + (s.last() as nat - '0' as nat) as nat
    }
}

/// The digits of a number that may have a plus sign before it.
pub open spec fn unsigned_part(s: Seq<char>) -> Seq<char> {
    if s.len() > 0 && s[0] == '+' {
        s.skip(1)
    } else {
        s
    }
}

/// The number that a text spells: decimal digits, with or without a plus sign before them, up to
/// a largest value.
pub open spec fn parsed_number(s: Seq<char>, max: nat) -> Option<nat> {
    let d = unsigned_part(s);
    if d.len() > 0 && (forall|i: int| 0 <= i < d.len() ==> is_digit(#[trigger] d[i]))
        && digits_value(d) <= max {
        Some(digits_value(d))
    } else {
        None
    }
}

proof fn digits_grow(s: Seq<char>, n: int)
    requires
        0 <= n <= s.len(),
        forall|i: int| 0 <= i < s.len() ==> is_digit(#[trigger] s[i]),
    ensures
        digits_value(s.take(n)) <= digits_value(s),
    decreases s.len() - n,
{
    if n == s.len() {
        assert(s.take(n) =~= s);
    } else {
        digits_grow(s, n + 1);
        assert(s.take(n + 1).drop_last() =~= s.take(n));
        assert(is_digit(s[n]));
    }
}

/// The number that a text spells, up to a largest value.
pub fn parse_number(s: &str, max: u64) -> (r: Option<u64>)
    ensures
        match r {
            Some(n) => parsed_number(s@, max as nat) == Some(n as nat),
            None => parsed_number(s@, max as nat) is None,
        },
{
    let v: Vec<char> = chars_of(s);
    let start: usize = if v.len() > 0 && v[0] == '+' {
        1
    } else {
        0
    };
    let ghost d = unsigned_part(s@);
    assert(d =~= s@.skip(start as int));
    if v.len() == start {
        return None;
    }
    let mut n: u64 = 0;
    let mut i: usize = start;
    assert(d.take(0) =~= Seq::<char>::empty());
    while i < v.len()
        invariant
            start <= i <= v@.len(),
            v@ == s@,
            d == unsigned_part(s@),
            d == s@.skip(start as int),
            n == digits_value(d.take(i - start)),
            n <= max,
            forall|j: int| 0 <= j < i - start ==> is_digit(#[trigger] d[j]),
        decreases v.len() - i,
    {
        let c: char = v[i];
        assert(d[i - start] == c);
        if !('0' <= c && c <= '9') {
            return None;
        }
        let digit: u64 = c as u64 - '0' as u64;
        let ghost k = i - start;
        proof {
            assert(d.take(k + 1).drop_last() =~= d.take(k));
            assert(d.take(k + 1).last() == c);
            if parsed_number(s@, max as nat) is Some {
                digits_grow(d, k + 1);
            }
        }
        let next: u64 = match n.checked_mul(10) {
            None => {
                return None;
            },
            Some(t) => match t.checked_add(digit) {
                None => {
                    return None;
                },
                Some(x) => x,
            },
        };
        if next > max {
            return None;
        }
        n = next;
        i = i + 1;
    }
    assert(d.take(i - start) =~= d);
    Some(n)
}

/// The decimal notation of a number spells it.
pub proof fn decimal_is_parsed(n: nat)
    ensures
        digits_value(decimal(n)) == n,
        decimal(n).len() > 0,
        forall|i: int| 0 <= i < decimal(n).len() ==> is_digit(#[trigger] decimal(n)[i]),
        unsigned_part(decimal(n)) == decimal(n),
    decreases n,
{
    reveal_with_fuel(digits_value, 2);
    if n < 10 {
        assert(seq![digit_char(n)].drop_last() =~= Seq::<char>::empty());
        assert(is_digit(digit_char(n)));
    } else {
        decimal_is_parsed(n / 10);
        let d = decimal(n / 10);
        let c = digit_char(n % 10);
        assert(d.push(c).drop_last() =~= d);
        assert(is_digit(c));
    }
    assert(is_digit(decimal(n)[0]));
}

/// Whether a character is white space.
pub open spec fn is_space(c: char) -> bool {
    let n = c as nat;
    ||| 9 <= n <= 13
    ||| n == 32
    ||| n == 0x85
    ||| n == 0xa0
    ||| n == 0x1680
    ||| 0x2000 <= n <= 0x200a
    ||| n == 0x2028
    ||| n == 0x2029
    ||| n == 0x202f
    ||| n == 0x205f
    ||| n == 0x3000
}

fn space(c: char) -> (b: bool)
    ensures
        b == is_space(c),
{
    let n: u32 = c as u32;
    (9 <= n && n <= 13) || n == 32 || n == 0x85 || n == 0xa0 || n == 0x1680 || (0x2000 <= n && n
        <= 0x200a) || n == 0x2028 || n == 0x2029 || n == 0x202f || n == 0x205f || n == 0x3000
}

/// How many characters stand before the first white space.
pub open spec fn word_len(s: Seq<char>) -> nat
    decreases s.len(),
{
    if s.len() == 0 || is_space(s[0]) {
        0
    } else {
        1 + word_len(s.skip(1))
    }
}

/// The first word is no longer than the text.
pub proof fn word_fits(s: Seq<char>)
    ensures
        word_len(s) <= s.len(),
    decreases s.len(),
{
    if s.len() > 0 && !is_space(s[0]) {
        word_fits(s.skip(1));
    }
}

/// The words of a text, between white space.
pub open spec fn words(s: Seq<char>) -> Seq<Seq<char>>
    decreases s.len(),
{
    if s.len() == 0 {
        Seq::empty()
    } else if is_space(s[0]) {
        words(s.skip(1))
    } else {
        proof {
            word_fits(s);
        }
        seq![s.take(word_len(s) as int)] + words(s.skip(word_len(s) as int))
    }
}

/// What a list of texts holds.
pub open spec fn texts(v: Seq<String>) -> Seq<Seq<char>> {
    Seq::new(v.len(), |i: int| v[i]@)
}

/// The words of a text, between white space.
pub fn split_words(s: &str) -> (r: Vec<String>)
    ensures
        texts(r@) == words(s@),
{
    let v: Vec<char> = chars_of(s);
    let mut out: Vec<String> = Vec::new();
    let mut i: usize = 0;
    assert(s@.skip(0) =~= s@);
    assert(texts(out@) + words(s@) =~= words(s@));
    while i < v.len()
        invariant
            i <= v@.len(),
            v@ == s@,
            texts(out@) + words(s@.skip(i as int)) =~= words(s@),
        decreases v.len() - i,
    {
        let ghost rest = s@.skip(i as int);
        assert(rest[0] == v@[i as int]);
        assert(rest.skip(1) =~= s@.skip(i + 1));
        if space(v[i]) {
            i = i + 1;
        } else {
            let mut j: usize = i + 1;
            proof {
                word_fits(rest);
            }
            while j < v.len() && !space(v[j])
                invariant
                    i < j <= v@.len(),
                    v@ == s@,
                    word_len(s@.skip(i as int)) == (j - i) + word_len(s@.skip(j as int)),
                decreases v.len() - j,
            {
                assert(s@.skip(j as int).skip(1) =~= s@.skip(j + 1));
                j = j + 1;
            }
            let ghost n = word_len(rest) as int;
            assert(n == j - i) by {
                assert(word_len(s@.skip(j as int)) == 0) by {
                    if j < v@.len() {
                        assert(s@.skip(j as int)[0] == v@[j as int]);
                    }
                }
            }
            let piece: &str = s.substring_char(i, j);
            assert(piece@ =~= rest.take(n));
            assert(rest.skip(n) =~= s@.skip(j as int));
            let ghost before = texts(out@);
            out.push(piece.to_owned());
            proof {
                assert(texts(out@) =~= before.push(rest.take(n)));
                assert(words(rest) == seq![rest.take(n)] + words(rest.skip(n)));
                assert(before.push(rest.take(n)) + words(s@.skip(j as int)) =~= before + words(
                    rest,
                ));
            }
            i = j;
        }
    }
    assert(s@.skip(i as int) =~= Seq::<char>::empty());
    assert(texts(out@) + Seq::<Seq<char>>::empty() =~= texts(out@));
    out
}

} // verus!
