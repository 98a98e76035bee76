//! Numbers and lists as people type them.

use vstd::prelude::*;

verus! {

/// `String::push` appends one character.
pub assume_specification[ String::push ](s: &mut String, c: char)
    ensures
        final(s)@ == old(s)@.push(c),
;

/// Unicode's `White_Space` property, the characters `str::trim` removes.
pub open spec fn is_white_space(c: char) -> bool {
    let n = c as u32;
    ||| 0x09 <= n <= 0x0D
    ||| n == 0x20
    ||| n == 0x85
    ||| n == 0xA0
    ||| n == 0x1680
    ||| 0x2000 <= n <= 0x200A
    ||| n == 0x2028
    ||| n == 0x2029
    ||| n == 0x202F
    ||| n == 0x205F
    ||| n == 0x3000
}

/// `s` without leading white space.
pub open spec fn trim_start(s: Seq<char>) -> Seq<char>
    decreases s.len(),
{
    if s.len() > 0 && is_white_space(s[0]) {
        trim_start(s.drop_first())
    } else {
        s
    }
}

/// `s` without trailing white space.
pub open spec fn trim_end(s: Seq<char>) -> Seq<char>
    decreases s.len(),
{
    if s.len() > 0 && is_white_space(s.last()) {
        trim_end(s.drop_last())
    } else {
        s
    }
}

/// `s` without white space at either end.
pub open spec fn trim(s: Seq<char>) -> Seq<char> {
    trim_end(trim_start(s))
}

/// Whether `c` is an ASCII digit.
pub open spec fn is_digit(c: char) -> bool {
    '0' <= c <= '9'
}

/// The number that a run of digits spells.
pub open spec fn digits_value(s: Seq<char>) -> nat
    decreases s.len(),
{
    if s.len() == 0 {
        0
    } else {
        digits_value(s.drop_last()) * 10 + (s.last() as u32 - '0' as u32) as nat
    }
}

/// `s` without one leading plus sign.
pub open spec fn unsigned(s: Seq<char>) -> Seq<char> {
    if s.len() > 0 && s[0] == '+' {
        s.drop_first()
    } else {
        s
    }
}

/// The number that `s` spells, if it spells one no larger than `max`: an optional plus sign, then
/// digits and nothing else, at least one of them.
pub open spec fn number(s: Seq<char>, max: nat) -> Option<nat> {
    let digits = unsigned(s);
    if digits.len() > 0 && (forall|i: int| 0 <= i < digits.len() ==> is_digit(#[trigger] digits[i]))
        && digits_value(digits) <= max {
        Some(digits_value(digits))
    } else {
        None
    }
}

/// The pieces of `s` between its commas. There is always at least one.
pub open spec fn pieces(s: Seq<char>) -> Seq<Seq<char>>
    decreases s.len(),
{
    if s.len() == 0 {
        seq![s]
    } else if s.last() == ',' {
        pieces(s.drop_last()).push(Seq::empty())
    } else {
        let earlier = pieces(s.drop_last());
        earlier.drop_last().push(earlier.last().push(s.last()))
    }
}

/// The numbers among some pieces, in order. White space around a number is ignored, and a piece
/// that is no number is left out.
pub open spec fn numbers(parts: Seq<Seq<char>>, max: nat) -> Seq<nat>
    decreases parts.len(),
{
    if parts.len() == 0 {
        Seq::empty()
    } else {
        match number(trim(parts.last()), max) {
            Some(n) => numbers(parts.drop_last(), max).push(n),
            None => numbers(parts.drop_last(), max),
        }
    }
}

/// The numbers of a comma-separated list.
pub open spec fn csv_numbers(s: Seq<char>, max: nat) -> Seq<nat> {
    numbers(pieces(s), max)
}

/// The characters of `s`.
pub fn chars_of(s: &str) -> (chars: Vec<char>)
    ensures
        chars@ == s@,
{
    let mut out: Vec<char> = Vec::new();
    for c in it: s.chars()
        invariant
            out@ == s@.take(it.index()),
            it.seq() == s@,
    {
        out.push(c);
        assert(out@ =~= s@.take(it.index() + 1));
    }
    assert(out@ =~= s@);
    out
}

fn white_space(c: char) -> (yes: bool)
    ensures
        yes == is_white_space(c),
{
    let n: u32 = c as u32;
    (0x09 <= n && n <= 0x0D) || n == 0x20 || n == 0x85 || n == 0xA0 || n == 0x1680 || (0x2000 <= n
        && n <= 0x200A) || n == 0x2028 || n == 0x2029 || n == 0x202F || n == 0x205F || n == 0x3000
}

/// A copy of `chars` without white space at either end.
fn trimmed(chars: &[char]) -> (out: Vec<char>)
    ensures
        out@ == trim(chars@),
{
    let mut from: usize = 0;
    let mut to: usize = chars.len();
    assert(chars@.skip(0) =~= chars@);
    while from < to && white_space(chars[from])
        invariant
            from <= to,
            to == chars.len(),
            trim_start(chars@) == trim_start(chars@.skip(from as int)),
        decreases to - from,
    {
        assert(chars@.skip(from as int).drop_first() =~= chars@.skip(from + 1));
        from = from + 1;
    }
    assert(trim_start(chars@) == chars@.skip(from as int));
    assert(chars@.subrange(from as int, to as int) =~= chars@.skip(from as int));
    while from < to && white_space(chars[to - 1])
        invariant
            from <= to <= chars.len(),
            trim(chars@) == trim_end(chars@.subrange(from as int, to as int)),
        decreases to - from,
    {
        assert(chars@.subrange(from as int, to as int).drop_last() =~= chars@.subrange(
            from as int,
            to - 1,
        ));
        to = to - 1;
    }
    let mut out: Vec<char> = Vec::new();
    let mut i: usize = from;
    while i < to
        invariant
            from <= i <= to <= chars.len(),
            out@ == chars@.subrange(from as int, i as int),
        decreases to - i,
    {
        out.push(chars[i]);
        i = i + 1;
        assert(out@ =~= chars@.subrange(from as int, i as int));
    }
    out
}

/// Reads a number no larger than `max`.
fn parse_chars(chars: &[char], max: u64) -> (n: Option<u64>)
    ensures
        match n {
            Some(v) => number(chars@, max as nat) == Some(v as nat),
            None => number(chars@, max as nat) is None,
        },
{
    let from: usize = if chars.len() > 0 && chars[0] == '+' {
        1
    } else {
        0
    };
    let ghost digits = unsigned(chars@);
    assert(digits =~= chars@.skip(from as int));
    if from == chars.len() {
        return None;
    }
    let mut value: u64 = 0;
    let mut too_large: bool = false;
    let mut i: usize = from;
    assert(digits.take(0) =~= Seq::empty());
    while i < chars.len()
        invariant
            from <= i <= chars.len(),
            digits == unsigned(chars@),
            digits == chars@.skip(from as int),
            forall|j: int| 0 <= j < i - from ==> is_digit(#[trigger] digits[j]),
            too_large ==> digits_value(digits.take(i - from)) > max,
            !too_large ==> value == digits_value(digits.take(i - from)) && value <= max,
        decreases chars.len() - i,
    {
        let c: char = chars[i];
        assert(digits[i - from] == c);
        if c < '0' || c > '9' {
            return None;
        }
        let digit: u64 = (c as u32 - '0' as u32) as u64;
        assert(digits.take(i + 1 - from).drop_last() =~= digits.take(i - from));
        assert(digits.take(i + 1 - from).last() == c);
        if !too_large {
            let next: u128 = value as u128 * 10 + digit as u128;
            if next > max as u128 {
                too_large = true;
            } else {
                value = next as u64;
            }
        }
        i = i + 1;
    }
    assert(digits.take(i - from) =~= digits);
    if too_large {
        None
    } else {
        Some(value)
    }
}

/// Reads a number no larger than `max`.
pub fn parse_number(s: &str, max: u64) -> (n: Option<u64>)
    ensures
        match n {
            Some(v) => number(s@, max as nat) == Some(v as nat),
            None => number(s@, max as nat) is None,
        },
{
    parse_chars(chars_of(s).as_slice(), max)
}

/// Reads a comma-separated list of numbers no larger than `max`.
fn parse_csv(s: &str, max: u64) -> (values: Vec<u64>)
    ensures
        values@.map_values(|v: u64| v as nat) == csv_numbers(s@, max as nat),
{
    let chars = chars_of(s);
    let mut out: Vec<u64> = Vec::new();
    let mut piece: Vec<char> = Vec::new();
    let mut i: usize = 0;
    let ghost view = |v: u64| v as nat;
    proof {
        assert(chars@.take(0) =~= Seq::empty());
        assert(pieces(chars@.take(0)) =~= seq![Seq::<char>::empty()]);
        assert(pieces(chars@.take(0)).drop_last() =~= Seq::empty());
        assert(out@.map_values(view) =~= Seq::empty());
    }
    while i < chars.len()
        invariant
            i <= chars.len(),
            view == (|v: u64| v as nat),
            pieces(chars@.take(i as int)).len() > 0,
            piece@ == pieces(chars@.take(i as int)).last(),
            out@.map_values(view) == numbers(pieces(chars@.take(i as int)).drop_last(), max as nat),
        decreases chars.len() - i,
    {
        let ghost before = pieces(chars@.take(i as int));
        let ghost after = pieces(chars@.take(i + 1));
        assert(chars@.take(i + 1).drop_last() =~= chars@.take(i as int));
        let c: char = chars[i];
        if c == ',' {
            assert(after.drop_last() =~= before);
            let ghost earlier = out@;
            match parse_chars(trimmed(piece.as_slice()).as_slice(), max) {
                Some(v) => {
                    out.push(v);
                    assert(out@.map_values(view) =~= earlier.map_values(view).push(v as nat));
                },
                None => {},
            }
            piece = Vec::new();
        } else {
            assert(after.drop_last() =~= before.drop_last());
            piece.push(c);
        }
        i = i + 1;
    }
    assert(chars@.take(i as int) =~= s@);
    let ghost earlier = out@;
    match parse_chars(trimmed(piece.as_slice()).as_slice(), max) {
        Some(v) => {
            out.push(v);
            assert(out@.map_values(view) =~= earlier.map_values(view).push(v as nat));
        },
        None => {},
    }
    out
}

/// Reads a comma-separated list. White space around a number is ignored, and what is no number,
/// or too large, is left out.
pub fn parse_usize_csv(s: &str) -> (values: Vec<usize>)
    ensures
        values@.map_values(|v: usize| v as nat) == csv_numbers(s@, usize::MAX as nat),
{
    let wide = parse_csv(s, usize::MAX as u64);
    proof {
        law_csv_bounded(s@, usize::MAX as nat);
    }
    let mut out: Vec<usize> = Vec::new();
    let mut i: usize = 0;
    let ghost all = csv_numbers(s@, usize::MAX as nat);
    while i < wide.len()
        invariant
            i <= wide.len(),
            all == wide@.map_values(|v: u64| v as nat),
            forall|j: int| 0 <= j < all.len() ==> #[trigger] all[j] <= usize::MAX,
            out@.map_values(|v: usize| v as nat) == all.take(i as int),
        decreases wide.len() - i,
    {
        let ghost before = out@;
        assert(all[i as int] == wide@[i as int]);
        out.push(wide[i] as usize);
        assert(out@.map_values(|v: usize| v as nat) =~= before.map_values(|v: usize| v as nat).push(
            all[i as int],
        ));
        i = i + 1;
        assert(out@.map_values(|v: usize| v as nat) =~= all.take(i as int));
    }
    assert(all.take(i as int) =~= all);
    out
}

/// Reads a comma-separated list. White space around a number is ignored, and what is no number,
/// or too large, is left out.
pub fn parse_u32_csv(s: &str) -> (values: Vec<u32>)
    ensures
        values@.map_values(|v: u32| v as nat) == csv_numbers(s@, u32::MAX as nat),
{
    let wide = parse_csv(s, u32::MAX as u64);
    proof {
        law_csv_bounded(s@, u32::MAX as nat);
    }
    let mut out: Vec<u32> = Vec::new();
    let mut i: usize = 0;
    let ghost all = csv_numbers(s@, u32::MAX as nat);
    while i < wide.len()
        invariant
            i <= wide.len(),
            all == wide@.map_values(|v: u64| v as nat),
            forall|j: int| 0 <= j < all.len() ==> #[trigger] all[j] <= u32::MAX,
            out@.map_values(|v: u32| v as nat) == all.take(i as int),
        decreases wide.len() - i,
    {
        let ghost before = out@;
        assert(all[i as int] == wide@[i as int]);
        out.push(wide[i] as u32);
        assert(out@.map_values(|v: u32| v as nat) =~= before.map_values(|v: u32| v as nat).push(
            all[i as int],
        ));
        i = i + 1;
        assert(out@.map_values(|v: u32| v as nat) =~= all.take(i as int));
    }
    assert(all.take(i as int) =~= all);
    out
}

/// Every number of a list respects the bound it was read with.
pub proof fn law_csv_bounded(s: Seq<char>, max: nat)
    ensures
        forall|i: int| 0 <= i < csv_numbers(s, max).len() ==> #[trigger] csv_numbers(s, max)[i] <= max,
{
    lemma_numbers_bounded(pieces(s), max);
}

proof fn lemma_numbers_bounded(parts: Seq<Seq<char>>, max: nat)
    ensures
        forall|i: int| 0 <= i < numbers(parts, max).len() ==> #[trigger] numbers(parts, max)[i] <= max,
    decreases parts.len(),
{
    if parts.len() > 0 {
        let earlier = numbers(parts.drop_last(), max);
        lemma_numbers_bounded(parts.drop_last(), max);
        assert forall|i: int| 0 <= i < numbers(parts, max).len() implies #[trigger] numbers(
            parts,
            max,
        )[i] <= max by {
            if i < earlier.len() {
                assert(earlier[i] <= max);
            }
        }
    }
}

proof fn lemma_numbers_concat(a: Seq<Seq<char>>, b: Seq<Seq<char>>, max: nat)
    ensures
        numbers(a + b, max) == numbers(a, max) + numbers(b, max),
    decreases b.len(),
{
    if b.len() == 0 {
        assert(a + b =~= a);
        assert(numbers(a, max) + numbers(b, max) =~= numbers(a, max));
    } else {
        lemma_numbers_concat(a, b.drop_last(), max);
        assert((a + b).drop_last() =~= a + b.drop_last());
        assert(numbers(a + b, max) =~= numbers(a, max) + numbers(b, max));
    }
}

proof fn lemma_pieces_concat(a: Seq<char>, b: Seq<char>)
    ensures
        pieces(b).len() > 0,
        pieces(a.push(',') + b) == pieces(a) + pieces(b),
    decreases b.len(),
{
    let joined = a.push(',') + b;
    if b.len() == 0 {
        assert(joined =~= a.push(','));
        assert(joined.drop_last() =~= a);
        assert(b =~= Seq::empty());
        assert(pieces(joined) =~= pieces(a) + pieces(b));
    } else {
        lemma_pieces_concat(a, b.drop_last());
        assert(joined.drop_last() =~= a.push(',') + b.drop_last());
        assert(joined.last() == b.last());
        assert(pieces(joined) =~= pieces(a) + pieces(b));
    }
}

/// Two lists joined by a comma hold the numbers of the first, then those of the second.
pub proof fn law_csv_concat(a: Seq<char>, b: Seq<char>, max: nat)
    ensures
        csv_numbers(a.push(',') + b, max) == csv_numbers(a, max) + csv_numbers(b, max),
{
    lemma_pieces_concat(a, b);
    lemma_numbers_concat(pieces(a), pieces(b), max);
}

// ── What is read is what was written ───────────────────────────────────────

/// The digits that write a number.
pub open spec fn decimal(n: nat) -> Seq<char>
    decreases n,
{
    let digit = (n % 10 + 48) as char;
    if n < 10 {
        seq![digit]
    } else {
        decimal(n / 10).push(digit)
    }
}

proof fn lemma_decimal(n: nat)
    ensures
        decimal(n).len() > 0,
        forall|i: int| 0 <= i < decimal(n).len() ==> is_digit(#[trigger] decimal(n)[i]),
        digits_value(decimal(n)) == n,
    decreases n,
{
    let digit = (n % 10 + 48) as char;
    if n < 10 {
        assert(seq![digit].drop_last() =~= Seq::empty());
        assert(digits_value(Seq::<char>::empty()) == 0);
    } else {
        lemma_decimal(n / 10);
        assert(decimal(n).drop_last() =~= decimal(n / 10));
        assert(decimal(n).last() == digit);
        assert(digits_value(decimal(n)) == n / 10 * 10 + n % 10);
    }
}

/// Every number reads back as it is written, unless it is over the bound; a plus sign or a zero in
/// front changes nothing.
pub proof fn law_numbers_read_back(n: nat, max: nat)
    ensures
        ({
            let expected = if n <= max {
                Some(n)
            } else {
                None
            };
            &&& number(decimal(n), max) == expected
            &&& number(seq!['+'] + decimal(n), max) == expected
            &&& number(seq!['0'] + decimal(n), max) == expected
        }),
{
    lemma_decimal(n);
    let digits = decimal(n);
    assert(is_digit(digits[0]));
    assert((seq!['+'] + digits).drop_first() =~= digits);
    let zero = seq!['0'] + digits;
    lemma_leading_zero(digits);
    assert forall|i: int| 0 <= i < zero.len() implies is_digit(#[trigger] zero[i]) by {
        if i > 0 {
            assert(is_digit(digits[i - 1]));
        }
    }
}

proof fn lemma_leading_zero(s: Seq<char>)
    ensures
        digits_value(seq!['0'] + s) == digits_value(s),
    decreases s.len(),
{
    let zero = seq!['0'] + s;
    if s.len() == 0 {
        assert(zero.drop_last() =~= Seq::empty());
        assert(digits_value(Seq::<char>::empty()) == 0);
        assert(zero.last() == '0');
    } else {
        lemma_leading_zero(s.drop_last());
        assert(zero.drop_last() =~= seq!['0'] + s.drop_last());
        assert(zero.last() == s.last());
    }
}

/// What is no number: nothing, a plus sign alone, or anything with a character that is no digit but
/// for one plus sign in front.
pub proof fn law_what_is_no_number(s: Seq<char>, i: int, max: nat)
    requires
        0 <= i < s.len(),
        !('0' <= s[i] <= '9'),
        i > 0 || s[i] != '+',
    ensures
        number(Seq::empty(), max) is None,
        number(seq!['+'], max) is None,
        number(s, max) is None,
{
    assert(seq!['+'].drop_first() =~= Seq::empty());
    let digits = unsigned(s);
    if s[0] == '+' {
        assert(!is_digit(digits[i - 1]));
    } else {
        assert(!is_digit(digits[i]));
    }
}

/// Whether every character is white space.
pub open spec fn blank(s: Seq<char>) -> bool {
    forall|i: int| 0 <= i < s.len() ==> is_white_space(#[trigger] s[i])
}

/// Trimming takes white space off both ends and nothing else.
pub proof fn law_trimming(s: Seq<char>)
    ensures
        exists|before: Seq<char>, after: Seq<char>|
            blank(before) && blank(after) && #[trigger] (before + trim(s) + after) == s,
        trim(s).len() > 0 ==> !is_white_space(trim(s)[0]) && !is_white_space(trim(s).last()),
{
    lemma_trim_start(s);
    lemma_trim_end(trim_start(s));
    let before = s.take(s.len() - trim_start(s).len());
    let after = trim_start(s).skip(trim(s).len() as int);
    assert(before + trim(s) + after =~= s);
}

proof fn lemma_trim_start(s: Seq<char>)
    ensures
        trim_start(s).len() <= s.len(),
        trim_start(s) == s.skip(s.len() - trim_start(s).len()),
        blank(s.take(s.len() - trim_start(s).len())),
        trim_start(s).len() > 0 ==> !is_white_space(trim_start(s)[0]),
    decreases s.len(),
{
    if s.len() > 0 && is_white_space(s[0]) {
        let rest = s.drop_first();
        lemma_trim_start(rest);
        let n = s.len() - trim_start(s).len();
        assert(s.skip(n) =~= rest.skip(n - 1));
        assert forall|i: int| 0 <= i < n implies is_white_space(#[trigger] s.take(n)[i]) by {
            if i > 0 {
                assert(is_white_space(rest.take(n - 1)[i - 1]));
            }
        }
    } else {
        assert(s.skip(0) =~= s);
    }
}

proof fn lemma_trim_end(s: Seq<char>)
    ensures
        trim_end(s).len() <= s.len(),
        trim_end(s) == s.take(trim_end(s).len() as int),
        blank(s.skip(trim_end(s).len() as int)),
        trim_end(s).len() > 0 ==> !is_white_space(trim_end(s).last()) && trim_end(s)[0] == s[0],
    decreases s.len(),
{
    if s.len() > 0 && is_white_space(s.last()) {
        let rest = s.drop_last();
        lemma_trim_end(rest);
        let n = trim_end(s).len() as int;
        assert(s.take(n) =~= rest.take(n));
        assert forall|i: int| 0 <= i < s.len() - n implies is_white_space(
            #[trigger] s.skip(n)[i],
        ) by {
            if i < s.len() - n - 1 {
                assert(is_white_space(rest.skip(n)[i]));
            }
        }
    } else {
        assert(s.take(s.len() as int) =~= s);
    }
}

/// The characters that are white space, by code point.
pub proof fn law_what_is_white_space(c: char)
    ensures
        is_white_space(c) <==> seq![
            0x09u32,
            0x0A,
            0x0B,
            0x0C,
            0x0D,
            0x20,
            0x85,
            0xA0,
            0x1680,
            0x2000,
            0x2001,
            0x2002,
            0x2003,
            0x2004,
            0x2005,
            0x2006,
            0x2007,
            0x2008,
            0x2009,
            0x200A,
            0x2028,
            0x2029,
            0x202F,
            0x205F,
            0x3000,
        ].contains(c as u32),
{
    let points = seq![
        0x09u32,
        0x0A,
        0x0B,
        0x0C,
        0x0D,
        0x20,
        0x85,
        0xA0,
        0x1680,
        0x2000,
        0x2001,
        0x2002,
        0x2003,
        0x2004,
        0x2005,
        0x2006,
        0x2007,
        0x2008,
        0x2009,
        0x200A,
        0x2028,
        0x2029,
        0x202F,
        0x205F,
        0x3000,
    ];
    let n = c as u32;
    if is_white_space(c) {
        let i: int = if n <= 0x0D {
            n - 0x09
        } else if n == 0x20 {
            5
        } else if n == 0x85 {
            6
        } else if n == 0xA0 {
            7
        } else if n == 0x1680 {
            8
        } else if n <= 0x200A {
            9 + (n - 0x2000)
        } else if n == 0x2028 {
            20
        } else if n == 0x2029 {
            21
        } else if n == 0x202F {
            22
        } else if n == 0x205F {
            23
        } else {
            24
        };
        assert(points[i] == n);
    }
}

/// Pieces with commas between them.
pub open spec fn joined(parts: Seq<Seq<char>>) -> Seq<char>
    decreases parts.len(),
{
    if parts.len() == 0 {
        Seq::empty()
    } else if parts.len() == 1 {
        parts[0]
    } else {
        joined(parts.drop_last()).push(',') + parts.last()
    }
}

/// Whether no character is a comma.
pub open spec fn no_comma(s: Seq<char>) -> bool {
    forall|i: int| 0 <= i < s.len() ==> #[trigger] s[i] != ','
}

proof fn lemma_one_piece(s: Seq<char>)
    requires
        no_comma(s),
    ensures
        pieces(s) == seq![s],
    decreases s.len(),
{
    if s.len() > 0 {
        let rest = s.drop_last();
        assert forall|i: int| 0 <= i < rest.len() implies #[trigger] rest[i] != ',' by {
            assert(rest[i] == s[i]);
        }
        lemma_one_piece(rest);
        assert(s.last() != ',');
        assert(rest.push(s.last()) =~= s);
        assert(pieces(s) =~= seq![s]);
    } else {
        assert(pieces(s) =~= seq![s]);
    }
}

/// What is joined by commas comes apart again into the same pieces.
pub proof fn law_pieces_of_joined(parts: Seq<Seq<char>>)
    requires
        parts.len() > 0,
        forall|i: int| 0 <= i < parts.len() ==> no_comma(#[trigger] parts[i]),
    ensures
        pieces(joined(parts)) == parts,
    decreases parts.len(),
{
    lemma_one_piece(parts.last());
    if parts.len() == 1 {
        assert(seq![parts[0]] =~= parts);
    } else {
        let rest = parts.drop_last();
        assert forall|i: int| 0 <= i < rest.len() implies no_comma(#[trigger] rest[i]) by {
            assert(rest[i] == parts[i]);
        }
        law_pieces_of_joined(rest);
        lemma_pieces_concat(joined(rest), parts.last());
        assert(rest + seq![parts.last()] =~= parts);
    }
}

/// A list without a comma holds the number it spells when trimmed, if it spells one.
pub proof fn law_a_list_of_one(s: Seq<char>, max: nat)
    requires
        no_comma(s),
    ensures
        csv_numbers(s, max) == (match number(trim(s), max) {
            Some(n) => seq![n],
            None => Seq::empty(),
        }),
{
    lemma_one_piece(s);
    assert(seq![s].drop_last() =~= Seq::empty());
    assert(numbers(Seq::empty(), max) =~= Seq::empty());
    assert(csv_numbers(s, max) =~= (match number(trim(s), max) {
        Some(n) => seq![n],
        None => Seq::empty(),
    }));
}

/// A list of any numbers, written with commas between them, reads back without those over the bound,
/// in order.
pub proof fn law_lists_read_back(ns: Seq<nat>, max: nat)
    requires
        ns.len() > 0,
    ensures
        csv_numbers(joined(ns.map_values(|n: nat| decimal(n))), max) == ns.filter(
            |n: nat| n <= max,
        ),
    decreases ns.len(),
{
    reveal_with_fuel(Seq::filter, 2);
    let written = ns.map_values(|n: nat| decimal(n));
    let last = decimal(ns.last());
    lemma_decimal(ns.last());
    assert forall|i: int| 0 <= i < last.len() implies #[trigger] last[i] != ',' by {
        assert(is_digit(last[i]));
    }
    assert(trim(last) == last) by {
        assert(is_digit(last[0]) && is_digit(last[last.len() - 1]));
    }
    law_a_list_of_one(last, max);
    law_numbers_read_back(ns.last(), max);
    let within = |n: nat| n <= max;
    if ns.len() == 1 {
        assert(written =~= seq![last]);
        assert(ns.drop_last() =~= Seq::empty());
        assert(ns.drop_last().filter(within) =~= Seq::empty());
        assert(ns.filter(within) =~= csv_numbers(last, max));
    } else {
        law_lists_read_back(ns.drop_last(), max);
        let earlier = ns.drop_last().map_values(|n: nat| decimal(n));
        assert(written.drop_last() =~= earlier);
        assert(written.last() == last);
        law_csv_concat(joined(earlier), last, max);
        assert(ns.filter(within) =~= ns.drop_last().filter(within) + csv_numbers(last, max));
    }
}

} // verus!
