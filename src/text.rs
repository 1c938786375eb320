use vstd::prelude::*;
use vstd::string::*;

verus! {

/// The first position at or after `i` where `pat` occurs in `s`.
pub open spec fn find_from(s: Seq<char>, pat: Seq<char>, i: int) -> Option<int>
    decreases s.len() + 1 - i,
{
    if i < 0 || i + pat.len() > s.len() {
        None
    } else if s.subrange(i, i + pat.len()) == pat {
        Some(i)
    } else {
        find_from(s, pat, i + 1)
    }
}

/// A position `find_from` reports is one where the pattern occurs, at or
/// after the start, and it occurs at no earlier such position.
pub proof fn lemma_find_from(s: Seq<char>, pat: Seq<char>, i: int)
    ensures
        find_from(s, pat, i) matches Some(j) ==> {
            &&& i <= j
            &&& 0 <= j
            &&& j + pat.len() <= s.len()
            &&& s.subrange(j, j + pat.len()) == pat
        },
        forall|k: int|
            #![trigger s.subrange(k, k + pat.len())]
            0 <= i <= k && k + pat.len() <= s.len() && (find_from(s, pat, i) matches Some(j)
                ==> k < j) ==> s.subrange(k, k + pat.len()) != pat,
    decreases s.len() + 1 - i,
{
    if i < 0 || i + pat.len() > s.len() {
    } else if s.subrange(i, i + pat.len()) == pat {
    } else {
        lemma_find_from(s, pat, i + 1);
    }
}

/// The first position where `pat` occurs in `s`.
pub open spec fn find(s: Seq<char>, pat: Seq<char>) -> Option<int> {
    find_from(s, pat, 0)
}

/// Whether `s` begins with `p`.
pub open spec fn has_prefix(s: Seq<char>, p: Seq<char>) -> bool {
    p.len() <= s.len() && s.subrange(0, p.len() as int) == p
}

/// The characters of `s`, one by one.
pub fn chars_of(s: &str) -> (r: Vec<char>)
    ensures
        r@ == s@,
{
    let n = s.unicode_len();
    let mut r: Vec<char> = Vec::with_capacity(n);
    let mut i: usize = 0;
    while i < n
        invariant
            n == s@.len(),
            i <= n,
            r@ == s@.subrange(0, i as int),
        decreases n - i,
    {
        r.push(s.get_char(i));
        i = i + 1;
        assert(r@ =~= s@.subrange(0, i as int));
    }
    assert(r@ =~= s@);
    r
}

/// Whether `pat` occurs in `s` at position `i`.
pub fn occurs_at(s: &Vec<char>, pat: &Vec<char>, i: usize) -> (r: bool)
    requires
        i + pat@.len() <= s@.len(),
    ensures
        r == (s@.subrange(i as int, i + pat@.len()) == pat@),
{
    let n = s.len();
    let mut j: usize = 0;
    while j < pat.len()
        invariant
            n == s@.len(),
            i + pat@.len() <= s@.len(),
            j <= pat@.len(),
            forall|k: int| 0 <= k < j ==> s@[i + k] == pat@[k],
        decreases pat@.len() - j,
    {
        if s[i + j] != pat[j] {
            assert(s@.subrange(i as int, i + pat@.len())[j as int] != pat@[j as int]);
            return false;
        }
        j = j + 1;
    }
    assert(s@.subrange(i as int, i + pat@.len()) =~= pat@);
    true
}

/// The first position where `pat` occurs in `s`.
pub fn find_in(s: &Vec<char>, pat: &Vec<char>) -> (r: Option<usize>)
    ensures
        match r {
            Some(i) => find(s@, pat@) == Some(i as int),
            None => find(s@, pat@) is None,
        },
{
    if pat.len() > s.len() {
        return None;
    }
    let last = s.len() - pat.len();
    let mut i: usize = 0;
    loop
        invariant
            i <= last,
            last == s@.len() - pat@.len(),
            find(s@, pat@) == find_from(s@, pat@, i as int),
        decreases last - i,
    {
        if occurs_at(s, pat, i) {
            return Some(i);
        }
        if i == last {
            assert(find_from(s@, pat@, i + 1) is None);
            return None;
        }
        i = i + 1;
    }
}

/// Whether `s` begins with `p`.
pub fn starts_with(s: &Vec<char>, p: &Vec<char>) -> (r: bool)
    ensures
        r == has_prefix(s@, p@),
{
    if p.len() > s.len() {
        false
    } else {
        occurs_at(s, p, 0)
    }
}

/// Whether two strings hold the same characters.
pub fn str_eq(a: &str, b: &str) -> (r: bool)
    ensures
        r == (a@ == b@),
{
    let x = chars_of(a);
    let y = chars_of(b);
    if x.len() != y.len() {
        return false;
    }
    assert(x@ =~= x@.subrange(0, y@.len() as int));
    starts_with(&x, &y)
}

/// The characters of `s` from `from` to `to`, as a new string.
pub fn substring(s: &str, from: usize, to: usize) -> (r: String)
    requires
        from <= to <= s@.len(),
    ensures
        r@ == s@.subrange(from as int, to as int),
{
    String::from_str(s.substring_char(from, to))
}

} // verus!

verus! {

/// Unicode `White_Space`, the set `char::is_whitespace` tests.
pub open spec fn is_ws(c: char) -> bool {
    let x = c as u32;
    (0x9 <= x <= 0xd) || x == 0x20 || x == 0x85 || x == 0xa0 || x == 0x1680 || (0x2000 <= x
        <= 0x200a) || x == 0x2028 || x == 0x2029 || x == 0x202f || x == 0x205f || x == 0x3000
}

/// `s` without its leading whitespace.
pub open spec fn trim_start(s: Seq<char>) -> Seq<char>
    decreases s.len(),
{
    if s.len() > 0 && is_ws(s[0]) {
        trim_start(s.drop_first())
    } else {
        s
    }
}

/// `s` without its trailing whitespace.
pub open spec fn trim_end(s: Seq<char>) -> Seq<char>
    decreases s.len(),
{
    if s.len() > 0 && is_ws(s.last()) {
        trim_end(s.drop_last())
    } else {
        s
    }
}

/// `s` without leading or trailing whitespace.
pub open spec fn trim(s: Seq<char>) -> Seq<char> {
    trim_end(trim_start(s))
}

/// The pieces of `s` between its `';'` characters (one more piece than
/// there are separators).
pub open spec fn split_semi(s: Seq<char>) -> Seq<Seq<char>>
    decreases s.len(),
{
    if s.len() == 0 {
        seq![Seq::empty()]
    } else {
        let r = split_semi(s.drop_last());
        if s.last() == ';' {
            r.push(Seq::empty())
        } else {
            r.update(r.len() - 1, r.last().push(s.last()))
        }
    }
}

/// The pieces joined back with `"; "` between them.
pub open spec fn join_semi(toks: Seq<Seq<char>>) -> Seq<char>
    decreases toks.len(),
{
    if toks.len() == 0 {
        Seq::empty()
    } else if toks.len() == 1 {
        toks[0]
    } else {
        join_semi(toks.drop_last()) + "; "@ + toks.last()
    }
}

/// Whether `c` is a character of `Unicode White_Space`.
pub fn is_whitespace(c: char) -> (r: bool)
    ensures
        r == is_ws(c),
{
    let x = c as u32;
    (0x9 <= x && x <= 0xd) || x == 0x20 || x == 0x85 || x == 0xa0 || x == 0x1680 || (0x2000 <= x
        && x <= 0x200a) || x == 0x2028 || x == 0x2029 || x == 0x202f || x == 0x205f || x == 0x3000
}

/// The bounds, within `a..b`, of `m[a..b]` trimmed.
pub fn trim_range(m: &Vec<char>, a: usize, b: usize) -> (r: (usize, usize))
    requires
        a <= b <= m@.len(),
    ensures
        a <= r.0 <= r.1 <= b,
        m@.subrange(r.0 as int, r.1 as int) == trim(m@.subrange(a as int, b as int)),
{
    let mut i = a;
    while i < b && is_whitespace(m[i])
        invariant
            a <= i <= b,
            b <= m@.len(),
            trim_start(m@.subrange(a as int, b as int)) == trim_start(
                m@.subrange(i as int, b as int),
            ),
        decreases b - i,
    {
        assert(m@.subrange(i as int, b as int).drop_first() =~= m@.subrange(i + 1, b as int));
        i = i + 1;
    }
    let mut j = b;
    while j > i && is_whitespace(m[j - 1])
        invariant
            i <= j <= b,
            b <= m@.len(),
            trim_end(m@.subrange(i as int, b as int)) == trim_end(m@.subrange(i as int, j as int)),
        decreases j,
    {
        assert(m@.subrange(i as int, j as int).drop_last() =~= m@.subrange(i as int, j - 1));
        j = j - 1;
    }
    (i, j)
}

/// The ranges of `m[a..b]`'s pieces between `';'`s, each trimmed.
pub fn split_trimmed(m: &Vec<char>, a: usize, b: usize) -> (r: Vec<(usize, usize)>)
    requires
        a <= b <= m@.len(),
    ensures
        r@.len() == split_semi(m@.subrange(a as int, b as int)).len(),
        forall|k: int|
            0 <= k < r@.len() ==> {
                &&& a <= r@[k].0 && r@[k].0 <= r@[k].1 && r@[k].1 <= b
                &&& m@.subrange(r@[k].0 as int, r@[k].1 as int) == trim(
                    split_semi(m@.subrange(a as int, b as int))[k],
                )
            },
{
    let mut r: Vec<(usize, usize)> = Vec::new();
    let mut start = a;
    let mut i = a;
    let ghost pieces: Seq<Seq<char>> = Seq::empty();
    assert(m@.subrange(a as int, a as int) =~= Seq::<char>::empty());
    while i < b
        invariant
            a <= start <= i <= b,
            b <= m@.len(),
            pieces + seq![m@.subrange(start as int, i as int)] == split_semi(
                m@.subrange(a as int, i as int),
            ),
            r@.len() == pieces.len(),
            forall|k: int| 0 <= k < r@.len() ==> a <= #[trigger] r@[k].0 <= r@[k].1 <= b,
            forall|k: int|
                0 <= k < r@.len() ==> m@.subrange(r@[k].0 as int, r@[k].1 as int) == trim(
                    #[trigger] pieces[k],
                ),
        decreases b - i,
    {
        let ghost before = m@.subrange(a as int, i as int);
        assert(m@.subrange(a as int, i + 1).drop_last() =~= before);
        assert(m@.subrange(a as int, i + 1).last() == m@[i as int]);
        if m[i] == ';' {
            let t = trim_range(m, start, i);
            let ghost old_r = r@;
            r.push(t);
            proof {
                let cur = m@.subrange(start as int, i as int);
                let old_pieces = pieces;
                assert forall|k: int| 0 <= k < r@.len() implies {
                    &&& a <= r@[k].0 && r@[k].0 <= r@[k].1 && r@[k].1 <= b
                    &&& m@.subrange(r@[k].0 as int, r@[k].1 as int) == trim(
                        old_pieces.push(cur)[k],
                    )
                } by {
                    if k < old_r.len() {
                        assert(r@[k] == old_r[k]);
                        assert(old_pieces.push(cur)[k] == old_pieces[k]);
                    }
                }
                assert(m@.subrange(i + 1, i + 1) =~= Seq::<char>::empty());
                assert((pieces + seq![cur]).push(Seq::empty()) =~~= pieces.push(cur) + seq![
                    m@.subrange(i + 1, i + 1),
                ]);
                pieces = pieces.push(cur);
            }
            start = i + 1;
        } else {
            proof {
                let cur = m@.subrange(start as int, i as int);
                let sp = pieces + seq![cur];
                assert(sp.last().push(m@[i as int]) =~= m@.subrange(start as int, i + 1));
                assert(sp.update(sp.len() - 1, sp.last().push(m@[i as int])) =~~= pieces + seq![
                    m@.subrange(start as int, i + 1),
                ]);
            }
        }
        i = i + 1;
    }
    let t = trim_range(m, start, b);
    let ghost old_r = r@;
    r.push(t);
    proof {
        let old_pieces = pieces;
        let cur = m@.subrange(start as int, b as int);
        assert forall|k: int| 0 <= k < r@.len() implies {
            &&& a <= r@[k].0 && r@[k].0 <= r@[k].1 && r@[k].1 <= b
            &&& m@.subrange(r@[k].0 as int, r@[k].1 as int) == trim(old_pieces.push(cur)[k])
        } by {
            if k < old_r.len() {
                assert(r@[k] == old_r[k]);
                assert(old_pieces.push(cur)[k] == old_pieces[k]);
            }
        }
        assert(pieces + seq![m@.subrange(start as int, b as int)] =~~= pieces.push(
            m@.subrange(start as int, b as int),
        ));
        pieces = pieces.push(m@.subrange(start as int, b as int));
        assert(pieces == split_semi(m@.subrange(a as int, b as int)));
    }
    r
}

} // verus!

verus! {

/// Whether `c` is an ASCII decimal digit.
pub open spec fn is_digit(c: char) -> bool {
    48 <= c as u32 <= 57
}

/// The value of a decimal digit.
pub open spec fn digit_value(c: char) -> int {
    c as u32 - 48
}

/// The digit that stands for `d` (below ten).
pub open spec fn digit_char(d: int) -> char {
    if d == 0 {
        '0'
    } else if d == 1 {
        '1'
    } else if d == 2 {
        '2'
    } else if d == 3 {
        '3'
    } else if d == 4 {
        '4'
    } else if d == 5 {
        '5'
    } else if d == 6 {
        '6'
    } else if d == 7 {
        '7'
    } else if d == 8 {
        '8'
    } else {
        '9'
    }
}

/// The number a run of decimal digits spells.
pub open spec fn digits_value(s: Seq<char>) -> int
    decreases s.len(),
{
    if s.len() == 0 {
        0
    } else {
        digits_value(s.drop_last()) * 10 + digit_value(s.last())
    }
}

/// Whether every character of `s` is a decimal digit.
pub open spec fn all_digits(s: Seq<char>) -> bool {
    forall|i: int| 0 <= i < s.len() ==> is_digit(#[trigger] s[i])
}

/// The unsigned 64-bit number `s` spells, as `u64`'s `from_str` reads it: an
/// optional `'+'`, then at least one decimal digit, the value in range.
pub open spec fn decimal_value(s: Seq<char>) -> Option<u64> {
    let d = if s.len() > 0 && s[0] == '+' {
        s.drop_first()
    } else {
        s
    };
    if d.len() > 0 && all_digits(d) && digits_value(d) <= u64::MAX {
        Some(digits_value(d) as u64)
    } else {
        None
    }
}

/// The shortest decimal writing of `n`.
pub open spec fn decimal_text(n: nat) -> Seq<char>
    decreases n,
{
    if n < 10 {
        seq![digit_char(n as int)]
    } else {
        decimal_text(n / 10).push(digit_char((n % 10) as int))
    }
}

/// Writing a number in decimal and reading it back gives the number; the
/// writing holds digits only.
pub proof fn lemma_decimal_round_trip(n: nat)
    ensures
        decimal_text(n).len() > 0,
        all_digits(decimal_text(n)),
        digits_value(decimal_text(n)) == n,
        n <= u64::MAX ==> decimal_value(decimal_text(n)) == Some(n as u64),
    decreases n,
{
    assert(digits_value(Seq::<char>::empty()) == 0);
    if n < 10 {
        assert(decimal_text(n).drop_last() =~= Seq::<char>::empty());
        assert(digit_value(digit_char(n as int)) == n);
    } else {
        lemma_decimal_round_trip(n / 10);
        let t = decimal_text(n / 10);
        assert(decimal_text(n).drop_last() =~= t);
        assert(digit_value(digit_char((n % 10) as int)) == n % 10);
        assert forall|i: int| 0 <= i < decimal_text(n).len() implies is_digit(
            #[trigger] decimal_text(n)[i],
        ) by {
            if i < t.len() {
                assert(decimal_text(n)[i] == t[i]);
            }
        }
    }
    assert(is_digit(decimal_text(n)[0]));
    assert(decimal_text(n)[0] != '+');
}

proof fn lemma_digits_value_grows(s: Seq<char>, c: char)
    requires
        is_digit(c),
    ensures
        digits_value(s.push(c)) == digits_value(s) * 10 + digit_value(c),
{
    assert(s.push(c).drop_last() =~= s);
}

/// The number `m[a..b]` spells, as `u64`'s `from_str` reads it.
pub fn parse_decimal(m: &Vec<char>, a: usize, b: usize) -> (r: Option<u64>)
    requires
        a <= b <= m@.len(),
    ensures
        r == decimal_value(m@.subrange(a as int, b as int)),
{
    let ghost s = m@.subrange(a as int, b as int);
    let mut i = a;
    if i < b && m[i] == '+' {
        i = i + 1;
    }
    let ghost d = m@.subrange(i as int, b as int);
    assert(d =~= (if s.len() > 0 && s[0] == '+' {
        s.drop_first()
    } else {
        s
    }));
    assert(decimal_value(s) == (if d.len() > 0 && all_digits(d) && digits_value(d) <= u64::MAX {
        Some(digits_value(d) as u64)
    } else {
        None
    }));
    if i == b {
        return None;
    }
    let start = i;
    let mut acc: u64 = 0;
    let mut overflow = false;
    assert(m@.subrange(start as int, start as int) =~= Seq::<char>::empty());
    while i < b
        invariant
            start <= i <= b,
            b <= m@.len(),
            d == m@.subrange(start as int, b as int),
            d.len() > 0,
            decimal_value(m@.subrange(a as int, b as int)) == (if d.len() > 0 && all_digits(d)
                && digits_value(d) <= u64::MAX {
                Some(digits_value(d) as u64)
            } else {
                None
            }),
            all_digits(m@.subrange(start as int, i as int)),
            !overflow ==> acc == digits_value(m@.subrange(start as int, i as int)),
            overflow ==> digits_value(m@.subrange(start as int, i as int)) > u64::MAX,
        decreases b - i,
    {
        let c = m[i];
        let x = c as u32;
        if x < 48 || x > 57 {
            assert(d[i - start] == c);
            assert(!is_digit(d[i - start]));
            return None;
        }
        let ghost before = m@.subrange(start as int, i as int);
        assert(m@.subrange(start as int, i + 1) =~= before.push(c));
        proof {
            lemma_digits_value_grows(before, c);
        }
        assert forall|k: int| 0 <= k < i + 1 - start implies is_digit(
            #[trigger] m@.subrange(start as int, i + 1)[k],
        ) by {
            if k < i - start {
                assert(m@.subrange(start as int, i + 1)[k] == before[k]);
            }
        }
        if !overflow {
            let dv = (x - 48) as u64;
            if acc <= (u64::MAX - dv) / 10 {
                acc = acc * 10 + dv;
            } else {
                overflow = true;
            }
        }
        i = i + 1;
    }
    assert(m@.subrange(start as int, i as int) =~= d);
    if overflow {
        None
    } else {
        Some(acc)
    }
}

/// The decimal digit `d` as a one-character string.
pub fn digit_str(d: u64) -> (r: &'static str)
    requires
        d < 10,
    ensures
        r@ == seq![digit_char(d as int)],
{
    proof {
        reveal_strlit("0");
        reveal_strlit("1");
        reveal_strlit("2");
        reveal_strlit("3");
        reveal_strlit("4");
        reveal_strlit("5");
        reveal_strlit("6");
        reveal_strlit("7");
        reveal_strlit("8");
        reveal_strlit("9");
    }
    let r = if d == 0 {
        "0"
    } else if d == 1 {
        "1"
    } else if d == 2 {
        "2"
    } else if d == 3 {
        "3"
    } else if d == 4 {
        "4"
    } else if d == 5 {
        "5"
    } else if d == 6 {
        "6"
    } else if d == 7 {
        "7"
    } else if d == 8 {
        "8"
    } else {
        "9"
    };
    assert(r@ =~= seq![digit_char(d as int)]);
    r
}

/// `n` written in decimal.
pub fn decimal_string(n: u64) -> (r: String)
    ensures
        r@ == decimal_text(n as nat),
    decreases n,
{
    if n < 10 {
        String::from_str(digit_str(n))
    } else {
        let mut s = decimal_string(n / 10);
        s.append(digit_str(n % 10));
        s
    }
}

/// Whether every range lies within `m`, start before end.
pub open spec fn ranges_within(m: Seq<char>, ranges: Seq<(usize, usize)>) -> bool {
    forall|k: int| 0 <= k < ranges.len() ==> #[trigger] ranges[k].0 <= ranges[k].1 <= m.len()
}

/// The position of the first token in `ranges` (pieces of `m`) that equals
/// `lit`.
pub fn find_token(m: &Vec<char>, ranges: &Vec<(usize, usize)>, lit: &Vec<char>) -> (r: Option<
    usize,
>)
    requires
        ranges_within(m@, ranges@),
    ensures
        match r {
            Some(i) => i < ranges@.len() && m@.subrange(
                ranges@[i as int].0 as int,
                ranges@[i as int].1 as int,
            ) == lit@ && forall|k: int|
                0 <= k < i ==> m@.subrange(
                    #[trigger] ranges@[k].0 as int,
                    ranges@[k].1 as int,
                ) != lit@,
            None => forall|k: int|
                0 <= k < ranges@.len() ==> m@.subrange(
                    #[trigger] ranges@[k].0 as int,
                    ranges@[k].1 as int,
                ) != lit@,
        },
{
    let mut i: usize = 0;
    while i < ranges.len()
        invariant
            i <= ranges@.len(),
            forall|k: int| 0 <= k < ranges@.len() ==> #[trigger] ranges@[k].0 <= ranges@[k].1 <= m@.len(),
            forall|k: int|
                0 <= k < i ==> m@.subrange(#[trigger] ranges@[k].0 as int, ranges@[k].1 as int)
                    != lit@,
        decreases ranges@.len() - i,
    {
        let (s, e) = ranges[i];
        assert(s == ranges@[i as int].0 && e == ranges@[i as int].1);
        if e - s == lit.len() && occurs_at(m, lit, s) {
            return Some(i);
        }
        assert(m@.subrange(s as int, e as int).len() != lit@.len() || m@.subrange(
            s as int,
            e as int,
        ) != lit@);
        i = i + 1;
    }
    None
}

/// The pieces `ranges[from..to]` of `m`, joined with `"; "` between them.
pub fn join_ranges(
    text: &str,
    m: &Vec<char>,
    ranges: &Vec<(usize, usize)>,
    from: usize,
    to: usize,
) -> (r: String)
    requires
        m@ == text@,
        from <= to <= ranges@.len(),
        ranges_within(m@, ranges@),
    ensures
        r@ == join_semi(
            Seq::new(
                (to - from) as nat,
                |k: int| m@.subrange(ranges@[from + k].0 as int, ranges@[from + k].1 as int),
            ),
        ),
{
    let ghost toks = Seq::new(
        (to - from) as nat,
        |k: int| m@.subrange(ranges@[from + k].0 as int, ranges@[from + k].1 as int),
    );
    let mut r = String::new();
    let mut i = from;
    assert(toks.subrange(0, 0) =~= Seq::<Seq<char>>::empty());
    while i < to
        invariant
            from <= i <= to,
            to <= ranges@.len(),
            m@ == text@,
            forall|k: int| 0 <= k < ranges@.len() ==> #[trigger] ranges@[k].0 <= ranges@[k].1 <= m@.len(),
            toks == Seq::new(
                (to - from) as nat,
                |k: int| m@.subrange(ranges@[from + k].0 as int, ranges@[from + k].1 as int),
            ),
            r@ == join_semi(toks.subrange(0, i - from)),
        decreases to - i,
    {
        let (s, e) = ranges[i];
        assert(s == ranges@[i as int].0 && e == ranges@[i as int].1);
        let piece = substring(text, s, e);
        let ghost prev = toks.subrange(0, i - from);
        let ghost next = toks.subrange(0, i + 1 - from);
        assert(next.drop_last() =~= prev);
        assert(next.last() == piece@);
        if i > from {
            r.append("; ");
            r.append(piece.as_str());
        } else {
            assert(next.len() == 1);
            r = piece;
        }
        i = i + 1;
    }
    assert(toks.subrange(0, to - from) =~= toks);
    r
}

} // verus!

verus! {

/// Whether `s` holds no `';'`.
pub open spec fn no_semi(s: Seq<char>) -> bool {
    forall|i: int| 0 <= i < s.len() ==> s[i] != ';'
}

/// Whether `s` neither starts nor ends with whitespace.
pub open spec fn is_trimmed(s: Seq<char>) -> bool {
    s.len() == 0 || (!is_ws(s[0]) && !is_ws(s.last()))
}

/// Splitting never yields an empty list of pieces.
pub proof fn lemma_split_nonempty(s: Seq<char>)
    ensures
        split_semi(s).len() >= 1,
    decreases s.len(),
{
    if s.len() > 0 {
        lemma_split_nonempty(s.drop_last());
    }
}

/// Appending text without `';'` extends the last piece.
pub proof fn lemma_split_append_plain(x: Seq<char>, y: Seq<char>)
    requires
        no_semi(y),
    ensures
        split_semi(x + y) == split_semi(x).update(
            split_semi(x).len() - 1,
            split_semi(x).last() + y,
        ),
    decreases y.len(),
{
    lemma_split_nonempty(x);
    if y.len() == 0 {
        assert(x + y =~= x);
        assert(split_semi(x).last() + y =~= split_semi(x).last());
        assert(split_semi(x).update(split_semi(x).len() - 1, split_semi(x).last() + y) =~~= split_semi(x));
    } else {
        let y0 = y.drop_last();
        assert(no_semi(y0));
        lemma_split_append_plain(x, y0);
        assert((x + y).drop_last() =~= x + y0);
        assert((x + y).last() == y.last());
        let r = split_semi(x + y0);
        lemma_split_nonempty(x + y0);
        assert(r.last().push(y.last()) =~= split_semi(x).last() + y);
        assert(r.update(r.len() - 1, r.last().push(y.last())) =~~= split_semi(x).update(
            split_semi(x).len() - 1,
            split_semi(x).last() + y,
        ));
    }
}

/// Text without `';'` is one piece.
pub proof fn lemma_split_plain(y: Seq<char>)
    requires
        no_semi(y),
    ensures
        split_semi(y) == seq![y],
{
    lemma_split_append_plain(Seq::empty(), y);
    assert(Seq::<char>::empty() + y =~= y);
    assert(split_semi(Seq::<char>::empty()) == seq![Seq::<char>::empty()]);
    assert(Seq::<char>::empty() + y =~= y);
    assert(seq![Seq::<char>::empty()].update(0, Seq::<char>::empty() + y) =~~= seq![y]);
}

/// A `';'` then text without `';'` adds one piece.
pub proof fn lemma_split_append_piece(x: Seq<char>, y: Seq<char>)
    requires
        no_semi(y),
    ensures
        split_semi(x + seq![';'] + y) == split_semi(x).push(y),
{
    let xs = x + seq![';'];
    assert(xs.drop_last() =~= x);
    assert(xs.last() == ';');
    lemma_split_nonempty(x);
    lemma_split_append_plain(xs, y);
    let r = split_semi(xs);
    assert(r == split_semi(x).push(Seq::empty()));
    assert(r.last() + y =~= y);
    assert(r.update(r.len() - 1, r.last() + y) =~~= split_semi(x).push(y));
}

/// Trimming text that neither starts nor ends with whitespace leaves it.
pub proof fn lemma_trim_trimmed(s: Seq<char>)
    requires
        is_trimmed(s),
    ensures
        trim(s) == s,
{
}

/// Trimming one space followed by trimmed text leaves the text.
pub proof fn lemma_trim_space_trimmed(s: Seq<char>)
    requires
        is_trimmed(s),
    ensures
        trim(seq![' '] + s) == s,
{
    let t = seq![' '] + s;
    assert(is_ws(' '));
    assert(t.drop_first() =~= s);
    assert(trim_start(t) == trim_start(s));
}

} // verus!

verus! {

/// The pieces of `s` between its `c` characters.
pub open spec fn split_char(s: Seq<char>, c: char) -> Seq<Seq<char>>
    decreases s.len(),
{
    if s.len() == 0 {
        seq![Seq::empty()]
    } else {
        let r = split_char(s.drop_last(), c);
        if s.last() == c {
            r.push(Seq::empty())
        } else {
            r.update(r.len() - 1, r.last().push(s.last()))
        }
    }
}

/// The ranges of `m`'s pieces between `c` characters.
pub fn split_ranges(m: &Vec<char>, c: char) -> (r: Vec<(usize, usize)>)
    ensures
        r@.len() == split_char(m@, c).len(),
        ranges_within(m@, r@),
        forall|k: int|
            0 <= k < r@.len() ==> m@.subrange(r@[k].0 as int, r@[k].1 as int) == #[trigger] split_char(
                m@,
                c,
            )[k],
{
    let mut r: Vec<(usize, usize)> = Vec::new();
    let mut start: usize = 0;
    let mut i: usize = 0;
    let ghost pieces: Seq<Seq<char>> = Seq::empty();
    assert(m@.subrange(0, 0) =~= Seq::<char>::empty());
    while i < m.len()
        invariant
            start <= i <= m@.len(),
            pieces + seq![m@.subrange(start as int, i as int)] == split_char(
                m@.subrange(0, i as int),
                c,
            ),
            r@.len() == pieces.len(),
            forall|k: int| 0 <= k < r@.len() ==> #[trigger] r@[k].0 <= r@[k].1 <= m@.len(),
            forall|k: int|
                0 <= k < r@.len() ==> m@.subrange(r@[k].0 as int, r@[k].1 as int)
                    == #[trigger] pieces[k],
        decreases m@.len() - i,
    {
        assert(m@.subrange(0, i + 1).drop_last() =~= m@.subrange(0, i as int));
        assert(m@.subrange(0, i + 1).last() == m@[i as int]);
        let cur_range = (start, i);
        if m[i] == c {
            let ghost old_r = r@;
            r.push(cur_range);
            proof {
                let cur = m@.subrange(start as int, i as int);
                let old_pieces = pieces;
                assert forall|k: int| 0 <= k < r@.len() implies m@.subrange(
                    r@[k].0 as int,
                    r@[k].1 as int,
                ) == #[trigger] old_pieces.push(cur)[k] by {
                    if k < old_r.len() {
                        assert(r@[k] == old_r[k]);
                    }
                }
                assert(m@.subrange(i + 1, i + 1) =~= Seq::<char>::empty());
                assert((pieces + seq![cur]).push(Seq::empty()) =~~= pieces.push(cur) + seq![
                    m@.subrange(i + 1, i + 1),
                ]);
                pieces = pieces.push(cur);
            }
            start = i + 1;
        } else {
            proof {
                let cur = m@.subrange(start as int, i as int);
                let sp = pieces + seq![cur];
                assert(sp.last().push(m@[i as int]) =~= m@.subrange(start as int, i + 1));
                assert(sp.update(sp.len() - 1, sp.last().push(m@[i as int])) =~~= pieces + seq![
                    m@.subrange(start as int, i + 1),
                ]);
            }
        }
        i = i + 1;
    }
    let ghost old_r = r@;
    r.push((start, i));
    proof {
        let cur = m@.subrange(start as int, i as int);
        let old_pieces = pieces;
        assert forall|k: int| 0 <= k < r@.len() implies m@.subrange(
            r@[k].0 as int,
            r@[k].1 as int,
        ) == #[trigger] old_pieces.push(cur)[k] by {
            if k < old_r.len() {
                assert(r@[k] == old_r[k]);
            }
        }
        assert(pieces + seq![cur] =~~= pieces.push(cur));
        pieces = pieces.push(cur);
        assert(m@.subrange(0, i as int) =~= m@);
        assert(pieces == split_char(m@, c));
    }
    r
}

} // verus!

verus! {

/// `pat` occurs at `j` and at no earlier position: `find` reports `j`.
pub proof fn lemma_find_at(s: Seq<char>, pat: Seq<char>, j: int)
    requires
        0 <= j,
        j + pat.len() <= s.len(),
        s.subrange(j, j + pat.len()) == pat,
        forall|k: int| 0 <= k < j ==> #[trigger] s.subrange(k, k + pat.len()) != pat,
    ensures
        find(s, pat) == Some(j),
{
    lemma_find_from(s, pat, 0);
    match find_from(s, pat, 0) {
        Some(i) => {
            if i < j {
                assert(s.subrange(i, i + pat.len()) != pat);
            }
        },
        None => {
            assert(s.subrange(j, j + pat.len()) == pat);
        },
    }
}

} // verus!

verus! {

/// Whether `s` holds no `c`.
pub open spec fn lacks(s: Seq<char>, c: char) -> bool {
    forall|i: int| 0 <= i < s.len() ==> s[i] != c
}

proof fn lemma_split_char_nonempty(s: Seq<char>, c: char)
    ensures
        split_char(s, c).len() >= 1,
    decreases s.len(),
{
    if s.len() > 0 {
        lemma_split_char_nonempty(s.drop_last(), c);
    }
}

/// Appending text without `c` extends the last piece.
proof fn lemma_split_char_append_plain(x: Seq<char>, y: Seq<char>, c: char)
    requires
        lacks(y, c),
    ensures
        split_char(x + y, c) == split_char(x, c).update(
            split_char(x, c).len() - 1,
            split_char(x, c).last() + y,
        ),
    decreases y.len(),
{
    lemma_split_char_nonempty(x, c);
    if y.len() == 0 {
        assert(x + y =~= x);
        assert(split_char(x, c).last() + y =~= split_char(x, c).last());
        assert(split_char(x, c).update(split_char(x, c).len() - 1, split_char(x, c).last() + y)
            =~~= split_char(x, c));
    } else {
        let y0 = y.drop_last();
        assert(lacks(y0, c));
        lemma_split_char_append_plain(x, y0, c);
        assert((x + y).drop_last() =~= x + y0);
        assert((x + y).last() == y.last());
        let r = split_char(x + y0, c);
        lemma_split_char_nonempty(x + y0, c);
        assert(r.last().push(y.last()) =~= split_char(x, c).last() + y);
        assert(r.update(r.len() - 1, r.last().push(y.last())) =~~= split_char(x, c).update(
            split_char(x, c).len() - 1,
            split_char(x, c).last() + y,
        ));
    }
}

/// Two texts without `c`, joined by one `c`, split back into the two.
pub proof fn lemma_split_char_two(x: Seq<char>, y: Seq<char>, c: char)
    requires
        lacks(x, c),
        lacks(y, c),
    ensures
        split_char(x + seq![c] + y, c) == seq![x, y],
{
    lemma_split_char_append_plain(Seq::empty(), x, c);
    assert(Seq::<char>::empty() + x =~= x);
    assert(seq![Seq::<char>::empty()].update(0, Seq::<char>::empty() + x) =~~= seq![x]);
    let xs = x + seq![c];
    assert(xs.drop_last() =~= x);
    assert(xs.last() == c);
    assert(split_char(xs, c) == seq![x].push(Seq::empty()));
    lemma_split_char_append_plain(xs, y, c);
    lemma_split_char_nonempty(xs, c);
    assert(Seq::<char>::empty() + y =~= y);
    assert(seq![x].push(Seq::<char>::empty()).update(1, Seq::<char>::empty() + y) =~~= seq![x, y]);
}

} // verus!

verus! {

/// Splitting text joined by one `';'` splits each side.
pub proof fn lemma_split_concat(x: Seq<char>, y: Seq<char>)
    ensures
        split_semi(x + seq![';'] + y) == split_semi(x) + split_semi(y),
    decreases y.len(),
{
    let xs = x + seq![';'];
    assert(xs.drop_last() =~= x);
    assert(xs.last() == ';');
    if y.len() == 0 {
        assert(xs + y =~= xs);
        assert(split_semi(y) == seq![Seq::<char>::empty()]);
        assert(split_semi(x).push(Seq::<char>::empty()) =~~= split_semi(x) + seq![
            Seq::<char>::empty(),
        ]);
    } else {
        let y0 = y.drop_last();
        let c = y.last();
        lemma_split_concat(x, y0);
        assert((xs + y).drop_last() =~= xs + y0);
        assert((xs + y).last() == c);
        lemma_split_nonempty(y0);
        let a = split_semi(x);
        let b = split_semi(y0);
        if c == ';' {
            assert((a + b).push(Seq::<char>::empty()) =~~= a + b.push(Seq::<char>::empty()));
        } else {
            let r = a + b;
            assert(r.last() == b.last());
            assert(r.update(r.len() - 1, r.last().push(c)) =~~= a + b.update(
                b.len() - 1,
                b.last().push(c),
            ));
        }
    }
}

/// Each piece after a space.
pub open spec fn spaced(ps: Seq<Seq<char>>) -> Seq<Seq<char>> {
    Seq::new(ps.len(), |i: int| seq![' '] + ps[i])
}

/// Pieces without `';'` joined with `"; "` (after a prefix without `';'`)
/// split back into the pieces, each after the first with its space.
pub proof fn lemma_split_join(pfx: Seq<char>, ps: Seq<Seq<char>>)
    requires
        no_semi(pfx),
        ps.len() >= 1,
        forall|i: int| 0 <= i < ps.len() ==> no_semi(#[trigger] ps[i]),
    ensures
        split_semi(pfx + join_semi(ps)) == seq![pfx + ps[0]] + spaced(ps.drop_first()),
    decreases ps.len(),
{
    reveal_strlit("; ");
    if ps.len() == 1 {
        assert(no_semi(ps[0]));
        assert(no_semi(pfx + ps[0]));
        lemma_split_plain(pfx + ps[0]);
        assert(spaced(ps.drop_first()) =~~= Seq::<Seq<char>>::empty());
        assert(seq![pfx + ps[0]] + Seq::<Seq<char>>::empty() =~~= seq![pfx + ps[0]]);
    } else {
        let dl = ps.drop_last();
        let last = ps.last();
        assert forall|i: int| 0 <= i < dl.len() implies no_semi(#[trigger] dl[i]) by {
            assert(dl[i] == ps[i]);
        }
        lemma_split_join(pfx, dl);
        assert(no_semi(last));
        assert(no_semi(seq![' '] + last));
        lemma_split_plain(seq![' '] + last);
        assert(pfx + join_semi(ps) =~= (pfx + join_semi(dl)) + seq![';'] + (seq![' '] + last));
        lemma_split_concat(pfx + join_semi(dl), seq![' '] + last);
        assert(dl[0] == ps[0]);
        assert(spaced(ps.drop_first()) =~~= spaced(dl.drop_first()).push(seq![' '] + last));
        assert((seq![pfx + ps[0]] + spaced(dl.drop_first())) + seq![seq![' '] + last] =~~= seq![
            pfx + ps[0],
        ] + spaced(ps.drop_first()));
    }
}

/// A joined text starts as its first piece does, or with the separator when
/// that piece is empty.
pub proof fn lemma_join_first(ps: Seq<Seq<char>>)
    requires
        ps.len() >= 1,
    ensures
        ps[0].len() > 0 ==> join_semi(ps).len() > 0 && join_semi(ps)[0] == ps[0][0],
        ps[0].len() == 0 ==> join_semi(ps).len() == 0 || join_semi(ps)[0] == ';',
    decreases ps.len(),
{
    reveal_strlit("; ");
    if ps.len() > 1 {
        let dl = ps.drop_last();
        lemma_join_first(dl);
        assert(dl[0] == ps[0]);
        let j = join_semi(dl) + "; "@ + ps.last();
        if join_semi(dl).len() > 0 {
            assert(j[0] == join_semi(dl)[0]);
        } else {
            assert(j[0] == ';');
        }
    }
}

} // verus!
