use vstd::prelude::*;

verus! {

/// The characters of `s`, in order.
pub fn chars_of(s: &str) -> (r: Vec<char>)
    ensures
        r@ == s@,
{
    let mut r: Vec<char> = Vec::new();
    for c in it: s.chars()
        invariant
            r@ == it.seq().take(it.index() as int),
            it.seq() == s@,
    {
        r.push(c);
    }
    r
}

// ---------------------------------------------------------------------------
// Searching
// ---------------------------------------------------------------------------

/// `needle` occurs in `hay` starting at index `i`.
pub open spec fn occurs_at(hay: Seq<char>, needle: Seq<char>, i: int) -> bool {
    0 <= i && i + needle.len() <= hay.len() && hay.subrange(i, i + needle.len()) == needle
}

/// `i` is the first index at or after `from` where `needle` occurs in `hay`.
pub open spec fn is_first_from(hay: Seq<char>, needle: Seq<char>, from: int, i: int) -> bool {
    &&& from <= i
    &&& occurs_at(hay, needle, i)
    &&& forall|j: int| from <= j < i ==> !#[trigger] occurs_at(hay, needle, j)
}

/// The first index at or after `from` where `needle` occurs in `hay`, as `str::find` gives it
/// on the rest of the text.
pub open spec fn find_from(hay: Seq<char>, needle: Seq<char>, from: int) -> Option<int> {
    if exists|i: int| is_first_from(hay, needle, from, i) {
        Some(choose|i: int| is_first_from(hay, needle, from, i))
    } else {
        None
    }
}

/// The first index where `needle` occurs in `hay`.
pub open spec fn find(hay: Seq<char>, needle: Seq<char>) -> Option<int> {
    find_from(hay, needle, 0)
}

/// `s` ends with `t`.
pub open spec fn ends_with(s: Seq<char>, t: Seq<char>) -> bool {
    t.len() <= s.len() && s.subrange(s.len() - t.len(), s.len() as int) == t
}

/// A text ends with what was appended to it last.
pub proof fn lemma_ends_with_append(s: Seq<char>, t: Seq<char>)
    ensures
        ends_with(s + t, t),
{
    assert((s + t).subrange(s.len() as int, (s + t).len() as int) =~= t);
}

/// `needle` occurs somewhere in `hay`.
pub open spec fn contains(hay: Seq<char>, needle: Seq<char>) -> bool {
    exists|i: int| occurs_at(hay, needle, i)
}

pub proof fn lemma_first_unique(hay: Seq<char>, needle: Seq<char>, from: int, i: int, j: int)
    requires
        is_first_from(hay, needle, from, i),
        is_first_from(hay, needle, from, j),
    ensures
        i == j,
{
    if i < j {
        assert(!occurs_at(hay, needle, i));
    } else if j < i {
        assert(!occurs_at(hay, needle, j));
    }
}

/// Whether `needle` occurs in `hay` at index `i`.
pub fn matches_at(hay: &[char], needle: &[char], i: usize) -> (r: bool)
    ensures
        r == occurs_at(hay@, needle@, i as int),
{
    if i > hay.len() || needle.len() > hay.len() - i {
        return false;
    }
    let hl: usize = hay.len();
    let mut k: usize = 0;
    while k < needle.len()
        invariant
            hl == hay@.len(),
            i + needle@.len() <= hay@.len(),
            k <= needle@.len(),
            forall|m: int| 0 <= m < k ==> hay@[i + m] == needle@[m],
        decreases needle@.len() - k,
    {
        if hay[i + k] != needle[k] {
            assert(hay@.subrange(i as int, i + needle@.len())[k as int] != needle@[k as int]);
            return false;
        }
        k += 1;
    }
    assert(hay@.subrange(i as int, i + needle@.len()) =~= needle@);
    true
}

/// The first index at or after `from` where `needle` occurs in `hay`.
pub fn find_chars_from(hay: &[char], needle: &[char], from: usize) -> (r: Option<usize>)
    ensures
        match r {
            Some(i) => find_from(hay@, needle@, from as int) == Some(i as int),
            None => find_from(hay@, needle@, from as int) is None,
        },
{
    if from > hay.len() {
        assert forall|i: int| !is_first_from(hay@, needle@, from as int, i) by {
            if is_first_from(hay@, needle@, from as int, i) {
                assert(occurs_at(hay@, needle@, i));
            }
        }
        return None;
    }
    let mut i: usize = from;
    while i < hay.len()
        invariant
            from <= i <= hay@.len(),
            forall|j: int| from <= j < i ==> !#[trigger] occurs_at(hay@, needle@, j),
        decreases hay@.len() - i,
    {
        if matches_at(hay, needle, i) {
            assert(is_first_from(hay@, needle@, from as int, i as int));
            proof {
                let c = choose|k: int| is_first_from(hay@, needle@, from as int, k);
                lemma_first_unique(hay@, needle@, from as int, i as int, c);
            }
            return Some(i);
        }
        i += 1;
    }
    if matches_at(hay, needle, i) {
        assert(is_first_from(hay@, needle@, from as int, i as int));
        proof {
            let c = choose|k: int| is_first_from(hay@, needle@, from as int, k);
            lemma_first_unique(hay@, needle@, from as int, i as int, c);
        }
        return Some(i);
    }
    assert forall|k: int| !is_first_from(hay@, needle@, from as int, k) by {
        if is_first_from(hay@, needle@, from as int, k) {
            assert(occurs_at(hay@, needle@, k));
            assert(k <= hay@.len());
        }
    }
    None
}

/// The first index where `needle` occurs in `hay`.
pub fn find_chars(hay: &[char], needle: &[char]) -> (r: Option<usize>)
    ensures
        match r {
            Some(i) => find(hay@, needle@) == Some(i as int),
            None => find(hay@, needle@) is None,
        },
{
    find_chars_from(hay, needle, 0)
}

/// `find_from` gives an occurrence, and no earlier one after `from`.
pub proof fn lemma_find_from_some(hay: Seq<char>, needle: Seq<char>, from: int)
    requires
        find_from(hay, needle, from) is Some,
    ensures
        is_first_from(hay, needle, from, find_from(hay, needle, from)->0),
{
}

/// With no occurrence at or after `from`, `find_from` gives nothing.
pub proof fn lemma_find_from_none(hay: Seq<char>, needle: Seq<char>, from: int)
    requires
        find_from(hay, needle, from) is None,
    ensures
        forall|j: int| from <= j ==> !#[trigger] occurs_at(hay, needle, j),
{
    assert forall|j: int| from <= j implies !#[trigger] occurs_at(hay, needle, j) by {
        if occurs_at(hay, needle, j) {
            lemma_least_occurrence(hay, needle, from, j);
        }
    }
}

/// An occurrence at or after `from` makes a first one exist.
pub proof fn lemma_least_occurrence(hay: Seq<char>, needle: Seq<char>, from: int, j: int)
    requires
        from <= j,
        occurs_at(hay, needle, j),
    ensures
        exists|i: int| is_first_from(hay, needle, from, i),
    decreases j - from,
{
    if forall|k: int| from <= k < j ==> !#[trigger] occurs_at(hay, needle, k) {
        assert(is_first_from(hay, needle, from, j));
    } else {
        let k = choose|k: int| from <= k < j && #[trigger] occurs_at(hay, needle, k);
        lemma_least_occurrence(hay, needle, from, k);
    }
}

/// Whether `needle` occurs in `hay`, as `str::contains` answers.
pub fn contains_chars(hay: &[char], needle: &[char]) -> (r: bool)
    ensures
        r == contains(hay@, needle@),
{
    match find_chars(hay, needle) {
        Some(i) => {
            proof { lemma_find_from_some(hay@, needle@, 0); }
            true
        },
        None => {
            proof { lemma_find_from_none(hay@, needle@, 0); }
            assert forall|j: int| !occurs_at(hay@, needle@, j) by {
                if occurs_at(hay@, needle@, j) {
                    assert(0 <= j);
                }
            }
            false
        },
    }
}

// ---------------------------------------------------------------------------
// Building strings
// ---------------------------------------------------------------------------

/// Appends one character: `String::push`.
#[verifier::external_body]
pub(crate) fn push_char(s: &mut String, c: char)
    ensures
        final(s)@ == old(s)@.push(c),
{
    s.push(c);
}

/// A string holding the characters `cs`.
pub fn string_from_chars(cs: &[char]) -> (r: String)
    ensures
        r@ == cs@,
{
    let mut r = String::new();
    let mut i: usize = 0;
    while i < cs.len()
        invariant
            i <= cs@.len(),
            r@ == cs@.take(i as int),
        decreases cs@.len() - i,
    {
        push_char(&mut r, cs[i]);
        assert(cs@.take(i as int).push(cs@[i as int]) =~= cs@.take(i + 1));
        i += 1;
    }
    assert(cs@.take(cs@.len() as int) =~= cs@);
    r
}

/// A string holding the characters of `s` from `start` up to `end`.
pub fn substring(s: &[char], start: usize, end: usize) -> (r: String)
    requires
        start <= end <= s@.len(),
    ensures
        r@ == s@.subrange(start as int, end as int),
{
    let mut r = String::new();
    let mut i: usize = start;
    while i < end
        invariant
            start <= i <= end <= s@.len(),
            r@ == s@.subrange(start as int, i as int),
        decreases end - i,
    {
        push_char(&mut r, s[i]);
        assert(s@.subrange(start as int, i as int).push(s@[i as int]) =~= s@.subrange(
            start as int,
            i + 1,
        ));
        i += 1;
    }
    r
}

// ---------------------------------------------------------------------------
// Decimal numbers
// ---------------------------------------------------------------------------

/// `c` is an ASCII digit.
pub open spec fn is_digit(c: char) -> bool {
    '0' <= c && c <= '9'
}

/// Every character of `s` is an ASCII digit.
pub open spec fn all_digits(s: Seq<char>) -> bool {
    forall|i: int| 0 <= i < s.len() ==> #[trigger] is_digit(s[i])
}

/// The digit character for `d`, for `d` below ten.
pub open spec fn digit_char(d: nat) -> char {
    ((d + 48) as u8) as char
}

/// The number that a digit character stands for.
pub open spec fn digit_value(c: char) -> nat {
    ((c as u32) - 48) as nat
}

/// The number written by the digits `s`, in base ten.
pub open spec fn digits_value(s: Seq<char>) -> nat
    decreases s.len(),
{
    if s.len() == 0 {
        0
    } else {
        digits_value(s.drop_last()) * 10 + digit_value(s.last())
    }
}

/// The base-ten writing of `n`, without leading zeros.
pub open spec fn decimal(n: nat) -> Seq<char>
    decreases n,
{
    if n < 10 {
        seq![digit_char(n)]
    } else {
        decimal(n / 10).push(digit_char(n % 10))
    }
}

/// What `str::parse` gives for an unsigned integer type whose largest value is `max`:
/// an optional `+`, then one or more ASCII digits, of value at most `max`.
pub open spec fn parse_unsigned(s: Seq<char>, max: nat) -> Option<nat> {
    let d = if s.len() > 0 && s[0] == '+' {
        s.drop_first()
    } else {
        s
    };
    if d.len() > 0 && all_digits(d) && digits_value(d) <= max {
        Some(digits_value(d))
    } else {
        None
    }
}

proof fn lemma_digit_char(d: nat)
    requires
        d < 10,
    ensures
        is_digit(digit_char(d)),
        digit_value(digit_char(d)) == d,
{
    assert(((d + 48) as u8) as char as u32 == d + 48);
}

/// The writing of a number is made of digits, and reads back as the number.
pub proof fn lemma_decimal_roundtrip(n: nat)
    ensures
        decimal(n).len() > 0,
        all_digits(decimal(n)),
        digits_value(decimal(n)) == n,
    decreases n,
{
    if n < 10 {
        lemma_digit_char(n);
        assert(decimal(n).drop_last() =~= Seq::<char>::empty());
        assert(digits_value(Seq::<char>::empty()) == 0);
    } else {
        lemma_decimal_roundtrip(n / 10);
        lemma_digit_char(n % 10);
        assert(decimal(n).drop_last() =~= decimal(n / 10));
        assert(decimal(n).last() == digit_char(n % 10));
        assert(digits_value(decimal(n)) == digits_value(decimal(n / 10)) * 10 + digit_value(
            digit_char(n % 10),
        ));
        assert(all_digits(decimal(n))) by {
            assert forall|i: int| 0 <= i < decimal(n).len() implies #[trigger] is_digit(
                decimal(n)[i],
            ) by {
                if i < decimal(n).len() - 1 {
                    assert(decimal(n)[i] == decimal(n / 10)[i]);
                }
            }
        }
    }
}

/// Reading digits: appending one more digit never lowers the value.
proof fn lemma_digits_value_prefix(s: Seq<char>, k: int)
    requires
        0 <= k <= s.len(),
        all_digits(s),
    ensures
        digits_value(s.take(k)) <= digits_value(s),
    decreases s.len() - k,
{
    if k < s.len() {
        lemma_digits_value_prefix(s, k + 1);
        assert(s.take(k + 1).drop_last() =~= s.take(k));
    } else {
        assert(s.take(k) =~= s);
    }
}

/// The digit character for `d`.
fn digit_to_char(d: u64) -> (c: char)
    requires
        d < 10,
    ensures
        c == digit_char(d as nat),
{
    let b: u8 = (d as u8) + 48;
    b as char
}

/// Appends the base-ten writing of `n`.
pub fn push_decimal(s: &mut String, n: u64)
    ensures
        final(s)@ == old(s)@ + decimal(n as nat),
    decreases n,
{
    if n >= 10 {
        push_decimal(s, n / 10);
    }
    let c = digit_to_char(n % 10);
    push_char(s, c);
    if n >= 10 {
        assert(decimal(n as nat) == decimal((n / 10) as nat).push(digit_char((n % 10) as nat)));
    } else {
        assert(decimal(n as nat) =~= seq![digit_char(n as nat)]);
    }
}

/// The base-ten writing of `n`, as `n.to_string()` gives it.
pub fn decimal_string(n: u64) -> (r: String)
    ensures
        r@ == decimal(n as nat),
{
    let mut s = String::new();
    push_decimal(&mut s, n);
    assert(Seq::<char>::empty() + decimal(n as nat) =~= decimal(n as nat));
    s
}

/// Whether `c` is an ASCII digit.
pub fn is_ascii_digit(c: char) -> (r: bool)
    ensures
        r == is_digit(c),
{
    '0' <= c && c <= '9'
}

/// Parses `s` as a `u64` the way `str::parse::<u64>` does.
pub fn parse_u64(s: &[char]) -> (r: Option<u64>)
    ensures
        match r {
            Some(v) => parse_unsigned(s@, u64::MAX as nat) == Some(v as nat),
            None => parse_unsigned(s@, u64::MAX as nat) is None,
        },
{
    let start: usize = if s.len() > 0 && s[0] == '+' {
        1
    } else {
        0
    };
    let ghost d = if s@.len() > 0 && s@[0] == '+' {
        s@.drop_first()
    } else {
        s@
    };
    assert(d =~= s@.subrange(start as int, s@.len() as int));
    if start >= s.len() {
        return None;
    }
    let mut i: usize = start;
    while i < s.len()
        invariant
            start <= i <= s@.len(),
            d =~= s@.subrange(start as int, s@.len() as int),
            d == (if s@.len() > 0 && s@[0] == '+' {
                s@.drop_first()
            } else {
                s@
            }),
            forall|k: int| 0 <= k < i - start ==> #[trigger] is_digit(d[k]),
        decreases s@.len() - i,
    {
        if !is_ascii_digit(s[i]) {
            assert(!is_digit(d[i - start]));
            assert(!all_digits(d));
            return None;
        }
        i += 1;
    }
    assert(all_digits(d));
    let mut v: u64 = 0;
    let mut i: usize = start;
    while i < s.len()
        invariant
            start <= i <= s@.len(),
            d =~= s@.subrange(start as int, s@.len() as int),
            d == (if s@.len() > 0 && s@[0] == '+' {
                s@.drop_first()
            } else {
                s@
            }),
            all_digits(d),
            v as nat == digits_value(d.take(i - start)),
        decreases s@.len() - i,
    {
        let c = s[i];
        assert(is_digit(d[i - start]));
        let dv: u64 = (c as u32 - 48) as u64;
        assert(d.take(i - start + 1).drop_last() =~= d.take(i - start));
        assert(d.take(i - start + 1).last() == c);
        if v > (u64::MAX - dv) / 10 {
            proof {
                assert(digits_value(d.take(i - start + 1)) == v * 10 + dv);
                assert(v * 10 + dv > u64::MAX) by (nonlinear_arith)
                    requires
                        v > (u64::MAX - dv) / 10,
                        dv <= 9,
                ;
                lemma_digits_value_prefix(d, i - start + 1);
                assert(digits_value(d) > u64::MAX);
            }
            return None;
        }
        assert(v * 10 + dv <= u64::MAX) by (nonlinear_arith)
            requires
                v <= (u64::MAX - dv) / 10,
                dv <= 9,
        ;
        v = v * 10 + dv;
        i += 1;
    }
    assert(d.take(s@.len() - start) =~= d);
    Some(v)
}

/// Parses `s` as a `u32` the way `str::parse::<u32>` does.
pub fn parse_u32(s: &[char]) -> (r: Option<u32>)
    ensures
        match r {
            Some(v) => parse_unsigned(s@, u32::MAX as nat) == Some(v as nat),
            None => parse_unsigned(s@, u32::MAX as nat) is None,
        },
{
    match parse_u64(s) {
        Some(v) => if v <= u32::MAX as u64 {
            Some(v as u32)
        } else {
            None
        },
        None => None,
    }
}

/// Parses `s` as a `u16` the way `str::parse::<u16>` does.
pub fn parse_u16(s: &[char]) -> (r: Option<u16>)
    ensures
        match r {
            Some(v) => parse_unsigned(s@, u16::MAX as nat) == Some(v as nat),
            None => parse_unsigned(s@, u16::MAX as nat) is None,
        },
{
    match parse_u64(s) {
        Some(v) => if v <= u16::MAX as u64 {
            Some(v as u16)
        } else {
            None
        },
        None => None,
    }
}


// ---------------------------------------------------------------------------
// Cutting and replacing
// ---------------------------------------------------------------------------

/// `s` without its leading `#` characters.
pub open spec fn trim_hashes(s: Seq<char>) -> Seq<char>
    decreases s.len(),
{
    if s.len() > 0 && s[0] == '#' {
        trim_hashes(s.drop_first())
    } else {
        s
    }
}

/// `s` without its leading `#` characters: `str::trim_start_matches('#')`.
pub fn trim_start_hashes(s: &str) -> (r: String)
    ensures
        r@ == trim_hashes(s@),
{
    let cs = chars_of(s);
    let mut i: usize = 0;
    assert(cs@.skip(0) =~= cs@);
    while i < cs.len() && cs[i] == '#'
        invariant
            i <= cs@.len(),
            trim_hashes(cs@) == trim_hashes(cs@.skip(i as int)),
        decreases cs@.len() - i,
    {
        assert(cs@.skip(i as int).drop_first() =~= cs@.skip(i + 1));
        i += 1;
    }
    assert(cs@.skip(i as int) =~= cs@.subrange(i as int, cs@.len() as int));
    substring(cs.as_slice(), i, cs.len())
}

/// The characters of `s` from `start` up to `end`.
pub fn sub_chars(s: &[char], start: usize, end: usize) -> (r: Vec<char>)
    requires
        start <= end <= s@.len(),
    ensures
        r@ == s@.subrange(start as int, end as int),
{
    let mut r: Vec<char> = Vec::new();
    let mut i: usize = start;
    while i < end
        invariant
            start <= i <= end <= s@.len(),
            r@ == s@.subrange(start as int, i as int),
        decreases end - i,
    {
        r.push(s[i]);
        assert(s@.subrange(start as int, i as int).push(s@[i as int]) =~= s@.subrange(
            start as int,
            i + 1,
        ));
        i += 1;
    }
    r
}

/// `s` with every occurrence of `from`, taken left to right without overlap, made `to`:
/// `str::replace`, for a non-empty `from`.
pub open spec fn replaced(s: Seq<char>, from: Seq<char>, to: Seq<char>) -> Seq<char>
    decreases s.len(),
{
    if from.len() == 0 {
        s
    } else {
        match find(s, from) {
            Some(i) => if i + from.len() <= s.len() && 0 <= i {
                s.subrange(0, i) + to + replaced(s.subrange(i + from.len(), s.len() as int), from, to)
            } else {
                s
            },
            None => s,
        }
    }
}

/// `s` with every occurrence of `from` made `to`, as `str::replace` does.
pub(crate) fn replace_all(s: &[char], from: &[char], to: &[char]) -> (r: Vec<char>)
    requires
        from@.len() > 0,
    ensures
        r@ == replaced(s@, from@, to@),
{
    let mut out: Vec<char> = Vec::new();
    let mut pos: usize = 0;
    let sl: usize = s.len();
    assert(s@.subrange(0, s@.len() as int) =~= s@);
    loop
        invariant
            pos <= s@.len(),
            sl == s@.len(),
            from@.len() > 0,
            replaced(s@, from@, to@) == out@ + replaced(
                s@.subrange(pos as int, s@.len() as int),
                from@,
                to@,
            ),
        decreases s@.len() - pos,
    {
        let ghost rest = s@.subrange(pos as int, s@.len() as int);
        let ghost out0 = out@;
        proof {
            lemma_find_shift(s@, from@, pos as int);
        }
        match find_chars_from(s, from, pos) {
            Some(i) => {
                proof {
                    lemma_find_from_some(s@, from@, pos as int);
                }
                assert(occurs_at(s@, from@, i as int));
                let mut k: usize = pos;
                while k < i
                    invariant
                        pos <= k <= i <= s@.len(),
                        out@ == out0 + s@.subrange(pos as int, k as int),
                    decreases i - k,
                {
                    out.push(s[k]);
                    assert(s@.subrange(pos as int, k as int).push(s@[k as int]) =~= s@.subrange(
                        pos as int,
                        k + 1,
                    ));
                    assert(out0 + s@.subrange(pos as int, k as int).push(s@[k as int]) =~= (out0
                        + s@.subrange(pos as int, k as int)).push(s@[k as int]));
                    k += 1;
                }
                let mut m: usize = 0;
                while m < to.len()
                    invariant
                        m <= to@.len(),
                        out@ == out0 + s@.subrange(pos as int, i as int) + to@.take(m as int),
                    decreases to@.len() - m,
                {
                    out.push(to[m]);
                    assert(to@.take(m as int).push(to@[m as int]) =~= to@.take(m + 1));
                    assert(out0 + s@.subrange(pos as int, i as int) + to@.take(m as int).push(
                        to@[m as int],
                    ) =~= (out0 + s@.subrange(pos as int, i as int) + to@.take(m as int)).push(
                        to@[m as int],
                    ));
                    m += 1;
                }
                assert(to@.take(to@.len() as int) =~= to@);
                let j: usize = i - pos;
                assert(rest.subrange(0, j as int) =~= s@.subrange(pos as int, i as int));
                assert(rest.subrange(j + from@.len(), rest.len() as int) =~= s@.subrange(
                    i + from@.len(),
                    s@.len() as int,
                ));
                assert(replaced(rest, from@, to@) == rest.subrange(0, j as int) + to@ + replaced(
                    rest.subrange(j + from@.len(), rest.len() as int),
                    from@,
                    to@,
                ));
                assert(out0 + (s@.subrange(pos as int, i as int) + to@ + replaced(
                    s@.subrange(i + from@.len(), s@.len() as int),
                    from@,
                    to@,
                )) =~= out@ + replaced(s@.subrange(i + from@.len(), s@.len() as int), from@, to@));
                pos = i + from.len();
            },
            None => {
                let mut k: usize = pos;
                while k < s.len()
                    invariant
                        pos <= k <= s@.len(),
                        out@ == out0 + s@.subrange(pos as int, k as int),
                    decreases s@.len() - k,
                {
                    out.push(s[k]);
                    assert(out0 + s@.subrange(pos as int, k as int).push(s@[k as int]) =~= (out0
                        + s@.subrange(pos as int, k as int)).push(s@[k as int]));
                    assert(s@.subrange(pos as int, k as int).push(s@[k as int]) =~= s@.subrange(
                        pos as int,
                        k + 1,
                    ));
                    k += 1;
                }
                assert(replaced(rest, from@, to@) == rest);
                return out;
            },
        }
    }
}

/// Searching the rest of a text from `pos` finds what searching the text from `pos` finds,
/// shifted by `pos`.
pub proof fn lemma_find_shift(s: Seq<char>, f: Seq<char>, pos: int)
    requires
        0 <= pos <= s.len(),
    ensures
        match find_from(s, f, pos) {
            Some(i) => find(s.subrange(pos, s.len() as int), f) == Some(i - pos),
            None => find(s.subrange(pos, s.len() as int), f) is None,
        },
{
    let rest = s.subrange(pos, s.len() as int);
    assert forall|j: int| 0 <= j implies #[trigger] occurs_at(rest, f, j) == occurs_at(s, f, j + pos) by {
        if j + f.len() <= rest.len() {
            assert(rest.subrange(j, j + f.len()) =~= s.subrange(j + pos, j + pos + f.len()));
        }
    }
    match find_from(s, f, pos) {
        Some(i) => {
            lemma_find_from_some(s, f, pos);
            assert(occurs_at(rest, f, i - pos));
            assert forall|j: int| 0 <= j < i - pos implies !#[trigger] occurs_at(rest, f, j) by {
                assert(!occurs_at(s, f, j + pos));
            }
            assert(is_first_from(rest, f, 0, i - pos));
            let c = choose|c: int| is_first_from(rest, f, 0, c);
            lemma_first_unique(rest, f, 0, i - pos, c);
        },
        None => {
            lemma_find_from_none(s, f, pos);
            assert forall|c: int| !is_first_from(rest, f, 0, c) by {
                if is_first_from(rest, f, 0, c) {
                    assert(occurs_at(s, f, c + pos));
                }
            }
        },
    }
}


} // verus!
