//! Decimal numbers as text, for error messages and on-screen counters.
use vstd::prelude::*;
use vstd::string::StrSliceExecFns;
use vstd::string::StringExecFns;

verus! {

/// `String::push` appends one character to the end of the string (std's
/// documentation), and that is all this states of it.
pub assume_specification[ String::push ](s: &mut String, ch: char)
    ensures
        final(s)@ == old(s)@.push(ch),
;

/// The character of a decimal digit.
pub open spec fn digit_char(d: nat) -> char {
    if d == 0 { '0' }
    else if d == 1 { '1' }
    else if d == 2 { '2' }
    else if d == 3 { '3' }
    else if d == 4 { '4' }
    else if d == 5 { '5' }
    else if d == 6 { '6' }
    else if d == 7 { '7' }
    else if d == 8 { '8' }
    else { '9' }
}

/// `n` written in decimal, most significant digit first, with no leading
/// zeros ("0" for zero).
pub open spec fn decimal(n: nat) -> Seq<char>
    decreases n,
{
    if n < 10 {
        seq![digit_char(n)]
    } else {
        decimal(n / 10).push(digit_char(n % 10))
    }
}

/// The decimal digits of `n` as values 0..=9, most significant first.
pub open spec fn digits(n: nat) -> Seq<nat>
    decreases n,
{
    if n < 10 {
        seq![n]
    } else {
        digits(n / 10).push(n % 10)
    }
}

fn digit_str(d: u64) -> (r: &'static str)
    requires
        d < 10,
    ensures
        r@ == seq![digit_char(d as nat)],
{
    proof {
        reveal_strlit("0");
        reveal_strlit("1");
        reveal_strlit("2");
        reveal_strlit("3");
        reveal_strlit("4");
        reveal_strlit("5");
        reveal_strlit("6");
        reveal_strlit("7");
        reveal_strlit("8");
        reveal_strlit("9");
    }
    if d == 0 { "0" }
    else if d == 1 { "1" }
    else if d == 2 { "2" }
    else if d == 3 { "3" }
    else if d == 4 { "4" }
    else if d == 5 { "5" }
    else if d == 6 { "6" }
    else if d == 7 { "7" }
    else if d == 8 { "8" }
    else { "9" }
}

/// Append `n` in decimal to `s`.
pub fn push_decimal(s: &mut String, n: u64)
    ensures
        final(s)@ == old(s)@ + decimal(n as nat),
    decreases n,
{
    if n >= 10 {
        push_decimal(s, n / 10);
    }
    s.append(digit_str(n % 10));
    proof {
        assert(old(s)@ + decimal(n as nat) =~= s@);
    }
}

/// The decimal digits of `n`, most significant first.
pub fn digits_of(n: u64) -> (r: Vec<u8>)
    ensures
        r@.len() == digits(n as nat).len(),
        forall|i: int| 0 <= i < r@.len() ==> r@[i] as nat == #[trigger] digits(n as nat)[i],
    decreases n,
{
    let mut out = if n >= 10 {
        digits_of(n / 10)
    } else {
        Vec::new()
    };
    let ghost before = out@;
    out.push((n % 10) as u8);
    proof {
        if n >= 10 {
            assert(digits(n as nat) == digits((n / 10) as nat).push((n % 10) as nat));
        } else {
            assert(before.len() == 0);
        }
    }
    out
}

/// Every number has at least one digit, and every digit is below ten.
pub proof fn lemma_digits_valid(n: nat)
    ensures
        digits(n).len() >= 1,
        forall|i: int| 0 <= i < digits(n).len() ==> #[trigger] digits(n)[i] < 10,
    decreases n,
{
    if n >= 10 {
        lemma_digits_valid(n / 10);
    }
}


/// Ten to the power `n`.
pub open spec fn pow10(n: nat) -> nat
    decreases n,
{
    if n == 0 { 1 } else { 10 * pow10((n - 1) as nat) }
}

pub proof fn lemma_pow10_positive(n: nat)
    ensures
        pow10(n) >= 1,
    decreases n,
{
    if n > 0 {
        lemma_pow10_positive((n - 1) as nat);
    }
}

/// Dividing by ten once more moves one digit further along.
pub proof fn lemma_div_pow10_step(v: nat, n: nat)
    ensures
        v / pow10(n) / 10 == v / pow10(n + 1),
{
    lemma_pow10_positive(n);
    vstd::arithmetic::div_mod::lemma_div_denominator(v as int, pow10(n) as int, 10);
    assert(pow10(n + 1) == 10 * pow10(n));
    assert(pow10(n) as int * 10 == pow10(n + 1) as int) by (nonlinear_arith)
        requires
            pow10(n + 1) == 10 * pow10(n),
    ;
}

/// White space as `char::is_whitespace` defines it: the characters with the
/// Unicode `White_Space` property.
pub open spec fn is_white(c: char) -> bool {
    let n = c as u32;
    (9 <= n <= 13) || n == 32 || n == 0x85 || n == 0xa0 || n == 0x1680 || (0x2000 <= n <= 0x200a)
        || n == 0x2028 || n == 0x2029 || n == 0x202f || n == 0x205f || n == 0x3000
}

/// Whether `c` is white space.
pub fn char_is_white(c: char) -> (r: bool)
    ensures
        r == is_white(c),
{
    let n = c as u32;
    (9 <= n && n <= 13) || n == 32 || n == 0x85 || n == 0xa0 || n == 0x1680 || (0x2000 <= n && n
        <= 0x200a) || n == 0x2028 || n == 0x2029 || n == 0x202f || n == 0x205f || n == 0x3000
}

/// `s` without its leading white space.
#[verifier::opaque]
pub open spec fn trim_start(s: Seq<char>) -> Seq<char>
    decreases s.len(),
{
    if s.len() > 0 && is_white(s[0]) { trim_start(s.drop_first()) } else { s }
}

/// `s` without its trailing white space.
#[verifier::opaque]
pub open spec fn trim_end(s: Seq<char>) -> Seq<char>
    decreases s.len(),
{
    if s.len() > 0 && is_white(s.last()) { trim_end(s.drop_last()) } else { s }
}

/// `s` without white space at either end, as `str::trim` leaves it.
pub open spec fn trim(s: Seq<char>) -> Seq<char> {
    trim_end(trim_start(s))
}

/// The index of the first `c` in `s`, or the length of `s` when there is none.
pub open spec fn cut_at(s: Seq<char>, c: char) -> int {
    if exists|i: int| 0 <= i < s.len() && s[i] == c {
        choose|i: int| 0 <= i < s.len() && s[i] == c && forall|j: int| 0 <= j < i ==> s[j] != c
    } else {
        s.len() as int
    }
}

/// The pieces of `s` between the characters `sep`; the last piece may be empty.
pub open spec fn pieces(s: Seq<char>, sep: char) -> Seq<Seq<char>>
    decreases s.len(),
{
    if s.len() == 0 {
        seq![seq![]]
    } else {
        let p = pieces(s.drop_last(), sep);
        if s.last() == sep {
            p.push(seq![])
        } else {
            p.update(p.len() - 1, p.last().push(s.last()))
        }
    }
}

/// The characters of `text`.
pub fn chars_of(text: &str) -> (r: Vec<char>)
    ensures
        r@ == text@,
{
    let n = text.unicode_len();
    let mut out: Vec<char> = Vec::new();
    let mut i: usize = 0;
    while i < n
        invariant
            i <= n,
            n == text@.len(),
            out@ == text@.subrange(0, i as int),
        decreases n - i,
    {
        out.push(text.get_char(i));
        i = i + 1;
        assert(out@ =~= text@.subrange(0, i as int));
    }
    assert(out@ =~= text@);
    out
}

/// The index of the first `c` in `cs[from..to]`, counted from the start of
/// `cs`, or `to` when there is none.
pub fn find_char(cs: &Vec<char>, from: usize, to: usize, c: char) -> (k: usize)
    requires
        from <= to <= cs@.len(),
    ensures
        from <= k <= to,
        k - from == cut_at(cs@.subrange(from as int, to as int), c),
{
    let ghost s = cs@.subrange(from as int, to as int);
    let mut k = from;
    while k < to && cs[k] != c
        invariant
            from <= k <= to,
            to <= cs@.len(),
            s == cs@.subrange(from as int, to as int),
            forall|j: int| 0 <= j < k - from ==> s[j] != c,
        decreases to - k,
    {
        k = k + 1;
    }
    proof {
        if k < to {
            assert(s[k - from] == c);
            let i = cut_at(s, c);
            assert(0 <= i < s.len() && s[i] == c && forall|j: int| 0 <= j < i ==> s[j] != c);
            if i < k - from {
            } else if i > k - from {
                assert(s[k - from] != c);
            }
        }
    }
    k
}

/// The bounds of `cs[from..to]` with its white space trimmed at both ends.
pub fn trim_bounds(cs: &Vec<char>, from: usize, to: usize) -> (r: (usize, usize))
    requires
        from <= to <= cs@.len(),
    ensures
        from <= r.0 <= r.1 <= to,
        cs@.subrange(r.0 as int, r.1 as int) == trim(cs@.subrange(from as int, to as int)),
{
    reveal(trim_start);
    reveal(trim_end);
    let mut a = from;
    while a < to && char_is_white(cs[a])
        invariant
            from <= a <= to,
            to <= cs@.len(),
            trim_start(cs@.subrange(a as int, to as int)) == trim_start(cs@.subrange(from as int, to as int)),
        decreases to - a,
    {
        proof {
            reveal(trim_start);
            assert(cs@.subrange(a as int, to as int).drop_first() =~= cs@.subrange(a + 1, to as int));
        }
        a = a + 1;
    }
    let mut b = to;
    while b > a && char_is_white(cs[b - 1])
        invariant
            a <= b <= to,
            to <= cs@.len(),
            trim_end(cs@.subrange(a as int, b as int)) == trim_end(cs@.subrange(a as int, to as int)),
        decreases b,
    {
        proof {
            reveal(trim_end);
            assert(cs@.subrange(a as int, b as int).drop_last() =~= cs@.subrange(a as int, b - 1));
        }
        b = b - 1;
    }
    (a, b)
}

/// Whether `cs[from..to]` spells `word`.
pub fn spells(cs: &Vec<char>, from: usize, to: usize, word: &str) -> (r: bool)
    requires
        from <= to <= cs@.len(),
    ensures
        r == (cs@.subrange(from as int, to as int) == word@),
{
    let n = word.unicode_len();
    if to - from != n {
        return false;
    }
    let mut i: usize = 0;
    while i < n
        invariant
            i <= n,
            n == word@.len(),
            to - from == n,
            to <= cs@.len(),
            forall|j: int| 0 <= j < i ==> cs@[from + j] == word@[j],
        decreases n - i,
    {
        if cs[from + i] != word.get_char(i) {
            assert(cs@.subrange(from as int, to as int)[i as int] != word@[i as int]);
            return false;
        }
        i = i + 1;
    }
    assert(cs@.subrange(from as int, to as int) =~= word@);
    true
}

/// The slices of `s` that the spans pick out.
pub open spec fn span_texts(s: Seq<char>, spans: Seq<(usize, usize)>) -> Seq<Seq<char>> {
    spans.map_values(|p: (usize, usize)| s.subrange(p.0 as int, p.1 as int))
}

/// The spans of the lines of `cs`: the pieces between line feeds.
pub fn line_spans(cs: &Vec<char>) -> (r: Vec<(usize, usize)>)
    ensures
        span_texts(cs@, r@) == pieces(cs@, '\n'),
        forall|i: int| #![trigger r@[i]] 0 <= i < r@.len() ==> r@[i].0 <= r@[i].1 && r@[i].1 <= cs@.len(),
{
    let mut out: Vec<(usize, usize)> = Vec::new();
    let mut start: usize = 0;
    let mut i: usize = 0;
    assert(cs@.subrange(0, 0) =~= Seq::<char>::empty());
    while i < cs.len()
        invariant
            start <= i <= cs@.len(),
            span_texts(cs@, out@).push(cs@.subrange(start as int, i as int)) == pieces(cs@.subrange(0, i as int), '\n'),
            forall|j: int| 0 <= j < out@.len() ==> #[trigger] out@[j].0 <= out@[j].1 <= i,
        decreases cs@.len() - i,
    {
        let c = cs[i];
        proof {
            assert(cs@.subrange(0, i + 1).drop_last() =~= cs@.subrange(0, i as int));
        }
        if c == '\n' {
            let ghost before = out@;
            out.push((start, i));
            proof {
                assert(span_texts(cs@, out@) =~= span_texts(cs@, before).push(cs@.subrange(start as int, i as int)));
                assert(cs@.subrange(i + 1, i + 1) =~= Seq::<char>::empty());
            }
            start = i + 1;
        } else {
            proof {
                let p = pieces(cs@.subrange(0, i as int), '\n');
                assert(cs@.subrange(start as int, i + 1) =~= cs@.subrange(start as int, i as int).push(c));
                assert(span_texts(cs@, out@).push(cs@.subrange(start as int, i + 1)) =~= p.update(p.len() - 1, p.last().push(c)));
            }
        }
        i = i + 1;
    }
    let ghost before = out@;
    out.push((start, i));
    proof {
        assert(span_texts(cs@, out@) =~= span_texts(cs@, before).push(cs@.subrange(start as int, i as int)));
        assert(cs@.subrange(0, i as int) =~= cs@);
        assert forall|j: int| #![trigger out@[j]] 0 <= j < out@.len() implies out@[j].0 <= out@[j].1 && out@[j].1 <= cs@.len() by {
            if j < before.len() {
                assert(out@[j] == before[j]);
            }
        }
    }
    out
}

/// Whether `c` is a decimal digit.
pub open spec fn is_digit(c: char) -> bool {
    48 <= c as u32 <= 57
}

/// At least one character, all of them decimal digits.
pub open spec fn all_digits(d: Seq<char>) -> bool {
    d.len() > 0 && forall|i: int| 0 <= i < d.len() ==> is_digit(#[trigger] d[i])
}

/// The number a string of decimal digits spells.
pub open spec fn digits_value(d: Seq<char>) -> int
    decreases d.len(),
{
    if d.len() == 0 { 0 } else { digits_value(d.drop_last()) * 10 + (d.last() as u32 - 48) }
}

/// What `str::parse::<i32>` gives: an optional sign, then decimal digits
/// whose value fits.
pub open spec fn parse_i32(s: Seq<char>) -> Option<i32> {
    let signed = s.len() > 0 && (s[0] == '+' || s[0] == '-');
    let d = if signed { s.drop_first() } else { s };
    let v = if s.len() > 0 && s[0] == '-' { -digits_value(d) } else { digits_value(d) };
    if all_digits(d) && i32::MIN <= v <= i32::MAX { Some(v as i32) } else { None }
}

/// What `str::parse::<u32>` gives: an optional `+`, then decimal digits
/// whose value fits.
pub open spec fn parse_u32(s: Seq<char>) -> Option<u32> {
    let d = if s.len() > 0 && s[0] == '+' { s.drop_first() } else { s };
    if all_digits(d) && digits_value(d) <= u32::MAX { Some(digits_value(d) as u32) } else { None }
}

/// The value of the digits `cs[from..to]`, when they are all digits and the
/// value is at most `2^32`.
fn digits_at(cs: &Vec<char>, from: usize, to: usize) -> (r: Option<u64>)
    requires
        from <= to <= cs@.len(),
    ensures
        match r {
            Some(v) => all_digits(cs@.subrange(from as int, to as int)) && v == digits_value(cs@.subrange(from as int, to as int)) && v <= 0x1_0000_0000,
            None => !all_digits(cs@.subrange(from as int, to as int)) || digits_value(cs@.subrange(from as int, to as int)) > 0x1_0000_0000,
        },
{
    let ghost s = cs@.subrange(from as int, to as int);
    if from == to {
        return None;
    }
    let mut acc: u64 = 0;
    let mut big = false;
    let mut i = from;
    assert(s.take(0) =~= Seq::<char>::empty());
    while i < to
        invariant
            from <= i <= to,
            to <= cs@.len(),
            s == cs@.subrange(from as int, to as int),
            forall|j: int| 0 <= j < i - from ==> is_digit(#[trigger] s[j]),
            !big ==> acc == digits_value(s.take(i - from)) && acc <= 0x1_0000_0000,
            big ==> digits_value(s.take(i - from)) > 0x1_0000_0000,
        decreases to - i,
    {
        let c = cs[i];
        let n = c as u32;
        if n < 48 || n > 57 {
            assert(!is_digit(s[i - from]));
            return None;
        }
        proof {
            assert(s.take(i - from + 1).drop_last() =~= s.take(i - from));
            assert(s.take(i - from + 1).last() == c);
        }
        if !big {
            acc = acc * 10 + (n - 48) as u64;
            if acc > 0x1_0000_0000 {
                big = true;
            }
        }
        i = i + 1;
    }
    assert(s.take(to - from) =~= s);
    if big { None } else { Some(acc) }
}

/// Parse `cs[from..to]` as `str::parse::<i32>` would.
pub fn parse_i32_at(cs: &Vec<char>, from: usize, to: usize) -> (r: Option<i32>)
    requires
        from <= to <= cs@.len(),
    ensures
        r == parse_i32(cs@.subrange(from as int, to as int)),
{
    let ghost s = cs@.subrange(from as int, to as int);
    let signed = from < to && (cs[from] == '+' || cs[from] == '-');
    let neg = from < to && cs[from] == '-';
    let start = if signed { from + 1 } else { from };
    proof {
        if signed {
            assert(s.drop_first() =~= cs@.subrange(start as int, to as int));
        }
    }
    match digits_at(cs, start, to) {
        None => None,
        Some(v) => {
            if neg {
                if v <= 0x8000_0000 {
                    Some((0 - (v as i64)) as i32)
                } else {
                    None
                }
            } else if v <= 0x7fff_ffff {
                Some(v as i32)
            } else {
                None
            }
        },
    }
}

/// Parse `cs[from..to]` as `str::parse::<u32>` would.
pub fn parse_u32_at(cs: &Vec<char>, from: usize, to: usize) -> (r: Option<u32>)
    requires
        from <= to <= cs@.len(),
    ensures
        r == parse_u32(cs@.subrange(from as int, to as int)),
{
    let ghost s = cs@.subrange(from as int, to as int);
    let plus = from < to && cs[from] == '+';
    let start = if plus { from + 1 } else { from };
    proof {
        if plus {
            assert(s.drop_first() =~= cs@.subrange(start as int, to as int));
        }
    }
    match digits_at(cs, start, to) {
        None => None,
        Some(v) => if v <= 0xffff_ffff { Some(v as u32) } else { None },
    }
}

} // verus!
