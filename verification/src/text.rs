//! Text helpers over `char` sequences: trimming, prefixes, comparison and decimal numerals.

use vstd::prelude::*;
use vstd::utf8;

verus! {

/// `String::push`: appends one character to the end of the string.
pub assume_specification[ String::push ](s: &mut String, ch: char)
    ensures
        final(s)@ == old(s)@.push(ch),
;

/// `s` without the run of `c` at its end.
pub open spec fn trim_end(s: Seq<char>, c: char) -> Seq<char>
    decreases s.len(),
{
    if s.len() > 0 && s.last() == c {
        trim_end(s.drop_last(), c)
    } else {
        s
    }
}

/// `s` without the run of `c` at its start.
pub open spec fn trim_start(s: Seq<char>, c: char) -> Seq<char>
    decreases s.len(),
{
    if s.len() > 0 && s.first() == c {
        trim_start(s.drop_first(), c)
    } else {
        s
    }
}

/// The digit character of a number below ten.
pub open spec fn digit(n: nat) -> char {
    ('0' as u32 + n) as char
}

/// The decimal numeral of `n`, without leading zeros.
pub open spec fn decimal(n: nat) -> Seq<char>
    decreases n,
{
    if n < 10 {
        seq![digit(n)]
    } else {
        decimal(n / 10).push(digit(n % 10))
    }
}

/// What remains after trimming a run of `c` from the end is a prefix of the text that does not
/// end in `c`, and what was cut off holds nothing but `c`.
pub proof fn trim_end_cuts_only_the_run(s: Seq<char>, c: char)
    ensures
        trim_end(s, c).is_prefix_of(s),
        trim_end(s, c).len() > 0 ==> trim_end(s, c).last() != c,
        forall|i: int| trim_end(s, c).len() <= i < s.len() ==> s[i] == c,
    decreases s.len(),
{
    if s.len() > 0 && s.last() == c {
        trim_end_cuts_only_the_run(s.drop_last(), c);
        let kept = trim_end(s, c);
        assert(kept =~= s.subrange(0, kept.len() as int));
        assert forall|i: int| kept.len() <= i < s.len() implies s[i] == c by {
            if i < s.len() - 1 {
                assert(s.drop_last()[i] == c);
            }
        }
    } else {
        assert(s =~= s.subrange(0, s.len() as int));
    }
}

/// What remains after trimming a run of `c` from the start is a suffix of the text that does
/// not start with `c`, and what was cut off holds nothing but `c`.
pub proof fn trim_start_cuts_only_the_run(s: Seq<char>, c: char)
    ensures
        trim_start(s, c).len() <= s.len(),
        trim_start(s, c) == s.skip(s.len() - trim_start(s, c).len()),
        trim_start(s, c).len() > 0 ==> trim_start(s, c).first() != c,
        forall|i: int| 0 <= i < s.len() - trim_start(s, c).len() ==> s[i] == c,
    decreases s.len(),
{
    if s.len() > 0 && s.first() == c {
        trim_start_cuts_only_the_run(s.drop_first(), c);
        let kept = trim_start(s, c);
        assert(kept =~= s.skip(s.len() - kept.len()));
        assert forall|i: int| 0 <= i < s.len() - kept.len() implies s[i] == c by {
            if i > 0 {
                assert(s.drop_first()[i - 1] == c);
            }
        }
    } else {
        assert(s =~= s.skip(0));
    }
}

/// The characters of a text.
pub fn chars_of(s: &str) -> (v: Vec<char>)
    ensures
        v@ == s@,
{
    let mut v: Vec<char> = Vec::new();
    for c in it: s.chars()
        invariant
            it.seq() == s@,
            v@ == s@.take(it.index()),
    {
        v.push(c);
        assert(s@.take(it.index() + 1) =~= s@.take(it.index()).push(c));
    }
    assert(s@.take(s@.len() as int) =~= s@);
    v
}

/// The text made of the characters at positions `from..to`.
pub fn text_of(v: &[char], from: usize, to: usize) -> (r: String)
    requires
        from <= to <= v@.len(),
    ensures
        r@ == v@.subrange(from as int, to as int),
{
    let mut r = String::new();
    let mut i: usize = from;
    while i < to
        invariant
            from <= i <= to <= v@.len(),
            r@ == v@.subrange(from as int, i as int),
        decreases to - i,
    {
        r.push(v[i]);
        i += 1;
        assert(v@.subrange(from as int, i as int) =~= v@.subrange(from as int, i - 1).push(
            v@[i - 1],
        ));
    }
    r
}

/// Drops the run of `c` at the end of `s`.
pub fn trim_end_char(s: &str, c: char) -> (r: String)
    ensures
        r@ == trim_end(s@, c),
{
    let v = chars_of(s);
    let mut n: usize = v.len();
    assert(s@.take(n as int) =~= s@);
    while n > 0 && v[n - 1] == c
        invariant
            n <= v.len(),
            v@ == s@,
            trim_end(s@.take(n as int), c) == trim_end(s@, c),
        decreases n,
    {
        assert(s@.take(n as int).drop_last() =~= s@.take(n - 1));
        n -= 1;
    }
    text_of(v.as_slice(), 0, n)
}

/// Drops the run of `c` at the start of `s`.
pub fn trim_start_char(s: &str, c: char) -> (r: String)
    ensures
        r@ == trim_start(s@, c),
{
    let v = chars_of(s);
    let mut n: usize = 0;
    assert(s@.skip(0) =~= s@);
    while n < v.len() && v[n] == c
        invariant
            n <= v.len(),
            v@ == s@,
            trim_start(s@.skip(n as int), c) == trim_start(s@, c),
        decreases v.len() - n,
    {
        assert(s@.skip(n as int).drop_first() =~= s@.skip(n + 1));
        n += 1;
    }
    assert(s@.skip(n as int) =~= s@.subrange(n as int, s@.len() as int));
    text_of(v.as_slice(), n, v.len())
}

/// Whether two texts are the same.
pub fn same_text(a: &str, b: &str) -> (r: bool)
    ensures
        r == (a@ == b@),
{
    let x = a.as_bytes();
    let y = b.as_bytes();
    if x.len() != y.len() {
        return false;
    }
    let mut i: usize = 0;
    while i < x.len()
        invariant
            x@ == utf8::encode_utf8(a@),
            y@ == utf8::encode_utf8(b@),
            x@.len() == y@.len(),
            i <= x@.len(),
            forall|j: int| 0 <= j < i ==> x@[j] == y@[j],
        decreases x@.len() - i,
    {
        if x[i] != y[i] {
            return false;
        }
        i += 1;
    }
    proof {
        assert(x@ =~= y@);
        utf8::encode_utf8_decode_utf8(a@);
        utf8::encode_utf8_decode_utf8(b@);
    }
    true
}

/// Whether `s` starts with `prefix`.
pub fn has_prefix(s: &str, prefix: &str) -> (r: bool)
    ensures
        r == prefix@.is_prefix_of(s@),
{
    let x = chars_of(s);
    let y = chars_of(prefix);
    if y.len() > x.len() {
        return false;
    }
    let mut i: usize = 0;
    while i < y.len()
        invariant
            x@ == s@,
            y@ == prefix@,
            i <= y@.len() <= x@.len(),
            forall|j: int| 0 <= j < i ==> x@[j] == y@[j],
        decreases y@.len() - i,
    {
        if x[i] != y[i] {
            assert(prefix@[i as int] != s@.subrange(0, prefix@.len() as int)[i as int]);
            return false;
        }
        i += 1;
    }
    assert(prefix@ =~= s@.subrange(0, prefix@.len() as int));
    true
}

/// `s` from its `n`-th character on.
pub fn text_after(s: &str, n: usize) -> (r: String)
    requires
        n <= s@.len(),
    ensures
        r@ == s@.skip(n as int),
{
    let v = chars_of(s);
    assert(s@.skip(n as int) =~= s@.subrange(n as int, s@.len() as int));
    text_of(v.as_slice(), n, v.len())
}

fn digit_char(n: usize) -> (c: char)
    requires
        n < 10,
    ensures
        c == digit(n as nat),
{
    match n {
        0 => '0',
        1 => '1',
        2 => '2',
        3 => '3',
        4 => '4',
        5 => '5',
        6 => '6',
        7 => '7',
        8 => '8',
        _ => '9',
    }
}

/// The decimal numeral of `n`.
pub fn decimal_text(n: usize) -> (r: String)
    ensures
        r@ == decimal(n as nat),
    decreases n,
{
    if n < 10 {
        let mut r = String::new();
        r.push(digit_char(n));
        assert(r@ =~= seq![digit(n as nat)]);
        r
    } else {
        let mut r = decimal_text(n / 10);
        r.push(digit_char(n % 10));
        r
    }
}

/// `n` times the character `c`.
pub open spec fn run_of(c: char, n: nat) -> Seq<char> {
    Seq::new(n, |i: int| c)
}

/// Trimming takes back exactly the run that was put behind a text.
pub proof fn trim_end_takes_the_run_back(s: Seq<char>, c: char, n: nat)
    requires
        s.len() > 0 ==> s.last() != c,
    ensures
        trim_end(s + run_of(c, n), c) == s,
    decreases n,
{
    let whole = s + run_of(c, n);
    if n > 0 {
        assert(whole.last() == c);
        assert(whole.drop_last() =~= s + run_of(c, (n - 1) as nat));
        trim_end_takes_the_run_back(s, c, (n - 1) as nat);
    } else {
        assert(whole =~= s);
    }
}

/// Trimming takes back exactly the run that was put in front of a text.
pub proof fn trim_start_takes_the_run_back(s: Seq<char>, c: char, n: nat)
    requires
        s.len() > 0 ==> s.first() != c,
    ensures
        trim_start(run_of(c, n) + s, c) == s,
    decreases n,
{
    let whole = run_of(c, n) + s;
    if n > 0 {
        assert(whole.first() == c);
        assert(whole.drop_first() =~= run_of(c, (n - 1) as nat) + s);
        trim_start_takes_the_run_back(s, c, (n - 1) as nat);
    } else {
        assert(whole =~= s);
    }
}

/// The number that a row of digits stands for.
pub open spec fn value_of(numeral: Seq<char>) -> nat
    decreases numeral.len(),
{
    if numeral.len() == 0 {
        0
    } else {
        10 * value_of(numeral.drop_last()) + (numeral.last() as nat - '0' as nat) as nat
    }
}

/// A decimal numeral is made of digits, has no leading zero but for the number zero, and reads
/// back as the number it was made of.
pub proof fn decimal_reads_back(n: nat)
    ensures
        decimal(n).len() > 0,
        forall|i: int| 0 <= i < decimal(n).len() ==> '0' <= #[trigger] decimal(n)[i] <= '9',
        decimal(n)[0] == '0' ==> n == 0 && decimal(n).len() == 1,
        value_of(decimal(n)) == n,
    decreases n,
{
    reveal_with_fuel(value_of, 2);
    if n >= 10 {
        let head = decimal(n / 10);
        decimal_reads_back(n / 10);
        assert(decimal(n).drop_last() =~= head);
        assert(decimal(n)[0] == head[0]);
        assert forall|i: int| 0 <= i < decimal(n).len() implies '0' <= #[trigger] decimal(n)[i]
            <= '9' by {
            if i < head.len() {
                assert(decimal(n)[i] == head[i]);
            }
        }
    } else {
        assert(decimal(n).drop_last() =~= Seq::empty());
    }
}

/// Different numbers have different numerals.
pub proof fn numerals_differ(a: nat, b: nat)
    requires
        a != b,
    ensures
        decimal(a) != decimal(b),
{
    decimal_reads_back(a);
    decimal_reads_back(b);
}

/// A text is what trimming its end leaves, followed by the run that was cut off.
pub proof fn trim_end_splits(s: Seq<char>, c: char)
    ensures
        s == trim_end(s, c) + run_of(c, (s.len() - trim_end(s, c).len()) as nat),
{
    trim_end_cuts_only_the_run(s, c);
    let kept = trim_end(s, c);
    let whole = kept + run_of(c, (s.len() - kept.len()) as nat);
    assert forall|i: int| 0 <= i < s.len() implies s[i] == whole[i] by {
        if i < kept.len() {
            assert(kept[i] == s.subrange(0, kept.len() as int)[i]);
        }
    }
    assert(s =~= whole);
}

/// A text is the run that trimming its start cuts off, followed by what is left.
pub proof fn trim_start_splits(s: Seq<char>, c: char)
    ensures
        s == run_of(c, (s.len() - trim_start(s, c).len()) as nat) + trim_start(s, c),
{
    trim_start_cuts_only_the_run(s, c);
    let kept = trim_start(s, c);
    assert(s =~= run_of(c, (s.len() - kept.len()) as nat) + kept);
}

/// The text of a number reads back as the number.
pub proof fn number_text_reads_back(n: usize, r: String)
    requires
        call_ensures(decimal_text, (n,), r),
    ensures
        value_of(r@) == n,
        r@.len() > 0,
        forall|i: int| 0 <= i < r@.len() ==> '0' <= #[trigger] r@[i] <= '9',
        r@[0] == '0' ==> n == 0,
{
    decimal_reads_back(n as nat);
}

} // verus!
