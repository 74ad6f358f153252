//! Text helpers on `str` and `String`, each proved against a short
//! definition over sequences of characters.
use vstd::prelude::*;

verus! {

/// `s` with every occurrence of `from` replaced by `to`, scanning left to
/// right and never letting two occurrences overlap.
pub open spec fn replaced(s: Seq<char>, from: Seq<char>, to: Seq<char>) -> Seq<char>
    decreases s.len(),
{
    if from.len() == 0 || s.len() < from.len() {
        s
    } else if s.subrange(0, from.len() as int) == from {
        to + replaced(s.subrange(from.len() as int, s.len() as int), from, to)
    } else {
        seq![s[0]] + replaced(s.drop_first(), from, to)
    }
}

/// A text in which `from` cannot start, because its first character never
/// occurs, comes out of a replacement unchanged.
pub proof fn lemma_replaced_absent(s: Seq<char>, from: Seq<char>, to: Seq<char>)
    requires
        from.len() > 0,
        forall|i: int| 0 <= i < s.len() ==> s[i] != from[0],
    ensures
        replaced(s, from, to) == s,
    decreases s.len(),
{
    if s.len() >= from.len() {
        assert(s.subrange(0, from.len() as int)[0] == s[0]);
        let rest = s.drop_first();
        assert forall|i: int| 0 <= i < rest.len() implies rest[i] != from[0] by {
            assert(rest[i] == s[i + 1]);
        }
        lemma_replaced_absent(rest, from, to);
        assert(seq![s[0]] + rest =~= s);
    }
}

/// Replacing works from the left: an occurrence of `from` at the start
/// becomes `to` and the replacing goes on after it; a first character that
/// cannot start `from` stays and the replacing goes on after it; so every
/// occurrence is replaced, not only the first.
pub proof fn lemma_replaced_steps(s: Seq<char>, from: Seq<char>, to: Seq<char>, x: char)
    requires
        from.len() > 0,
    ensures
        replaced(from + s, from, to) == to + replaced(s, from, to),
        x != from[0] ==> replaced(seq![x] + s, from, to) == seq![x] + replaced(s, from, to),
        replaced(Seq::<char>::empty(), from, to) == Seq::<char>::empty(),
{
    let a = from + s;
    assert(a.subrange(0, from.len() as int) =~= from);
    assert(a.subrange(from.len() as int, a.len() as int) =~= s);
    let b = seq![x] + s;
    if x != from[0] && b.len() >= from.len() {
        assert(b.subrange(0, from.len() as int)[0] == x);
        assert(b.drop_first() =~= s);
    }
    if x != from[0] && b.len() < from.len() {
        assert(b.len() <= s.len() + 1);
        lemma_replaced_short(s, from, to);
        assert(seq![x] + s =~= b);
    }
}

proof fn lemma_replaced_short(s: Seq<char>, from: Seq<char>, to: Seq<char>)
    requires
        from.len() > 0,
        s.len() < from.len(),
    ensures
        replaced(s, from, to) == s,
{
}

/// The digit character of `d`, for `d < 10`.
pub open spec fn digit_char(d: nat) -> char {
    "0123456789"@[d as int]
}

/// The decimal notation of `n`, without sign or leading zeros.
pub open spec fn decimal(n: nat) -> Seq<char>
    decreases n,
{
    if n < 10 {
        seq![digit_char(n)]
    } else {
        decimal(n / 10).push(digit_char(n % 10))
    }
}

/// The number that the decimal digits `s` denote.
pub open spec fn digits_value(s: Seq<char>) -> int
    decreases s.len(),
{
    if s.len() == 0 {
        0
    } else {
        digits_value(s.drop_last()) * 10 + (s.last() as int - '0' as int)
    }
}

/// Every character of `s` is one of the digits `0` to `9`.
pub open spec fn all_digits(s: Seq<char>) -> bool {
    forall|i: int| 0 <= i < s.len() ==> '0' <= #[trigger] s[i] && s[i] <= '9'
}

/// The character of the digit `d` is the one whose code is that of `0`
/// plus `d`.
pub proof fn lemma_digit_char(d: nat)
    requires
        d < 10,
    ensures
        digit_char(d) as int == '0' as int + d,
        '0' <= digit_char(d) <= '9',
{
    reveal_strlit("0123456789");
    if d == 0 {
    } else if d == 1 {
    } else if d == 2 {
    } else if d == 3 {
    } else if d == 4 {
    } else if d == 5 {
    } else if d == 6 {
    } else if d == 7 {
    } else if d == 8 {
    } else {
    }
}

/// The decimal notation of `n` is made of digits, starts with a digit other
/// than `0` unless `n` is `0`, and read back in base ten gives `n`.
pub proof fn lemma_decimal_denotes(n: nat)
    ensures
        all_digits(decimal(n)),
        decimal(n).len() >= 1,
        digits_value(decimal(n)) == n,
        n > 0 ==> decimal(n)[0] != '0',
        n == 0 ==> decimal(n) == seq!['0'],
    decreases n,
{
    if n < 10 {
        lemma_digit_char(n);
        let s = decimal(n);
        assert(s.drop_last() =~= Seq::<char>::empty());
        assert(digits_value(s.drop_last()) == 0);
        if n == 0 {
            assert(s =~= seq!['0']);
        }
    } else {
        lemma_decimal_denotes(n / 10);
        lemma_digit_char(n % 10);
        let s = decimal(n);
        let h = decimal(n / 10);
        assert(s == h.push(digit_char(n % 10)));
        assert(s.drop_last() =~= h);
        assert(s[0] == h[0]);
        assert(n == (n / 10) * 10 + n % 10);
    }
}

/// The number of newline characters among the first `n` characters of `s`.
pub open spec fn newlines_in(s: Seq<char>, n: nat) -> nat
    decreases n,
{
    if n == 0 {
        0
    } else {
        newlines_in(s, (n - 1) as nat) + if s[n - 1] == '\n' { 1nat } else { 0nat }
    }
}

/// The number of newline characters in `s`.
pub open spec fn newlines(s: Seq<char>) -> nat {
    newlines_in(s, s.len())
}

/// The characters of `s`, one by one.
fn chars_of(s: &str) -> (v: Vec<char>)
    ensures
        v@ == s@,
{
    let n = s.unicode_len();
    let mut v: Vec<char> = Vec::new();
    let mut i: usize = 0;
    while i < n
        invariant
            n == s@.len(),
            i <= n,
            v@ == s@.subrange(0, i as int),
        decreases n - i,
    {
        v.push(s.get_char(i));
        i = i + 1;
    }
    assert(v@ =~= s@);
    v
}

/// Whether `pat` occurs in `text` at position `i`.
fn occurs_at(text: &Vec<char>, i: usize, pat: &Vec<char>) -> (b: bool)
    requires
        i <= text.len(),
    ensures
        b == (i + pat.len() <= text.len() && text@.subrange(i as int, i + pat.len()) == pat@),
{
    if pat.len() > text.len() - i {
        return false;
    }
    let mut k: usize = 0;
    while k < pat.len()
        invariant
            i + pat.len() <= text.len(),
            k <= pat.len(),
            forall|j: int| 0 <= j < k ==> text@[i + j] == pat@[j],
        decreases pat.len() - k,
    {
        if text[i + k] != pat[k] {
            assert(text@.subrange(i as int, i + pat.len())[k as int] != pat@[k as int]);
            return false;
        }
        k = k + 1;
    }
    assert(text@.subrange(i as int, i + pat.len()) =~= pat@);
    true
}

/// Whether `s` ends with `suffix`.
pub fn ends_with(s: &str, suffix: &str) -> (b: bool)
    ensures
        b == (suffix@.len() <= s@.len() && s@.subrange(s@.len() - suffix@.len(), s@.len() as int)
            == suffix@),
{
    let text = chars_of(s);
    let pat = chars_of(suffix);
    if pat.len() > text.len() {
        return false;
    }
    occurs_at(&text, text.len() - pat.len(), &pat)
}

/// `s` with every occurrence of `from` replaced by `to`.
pub fn replace_literal(s: &str, from: &str, to: &str) -> (r: String)
    requires
        from@.len() > 0,
    ensures
        r@ == replaced(s@, from@, to@),
{
    let text = chars_of(s);
    let pat = chars_of(from);
    let n = text.len();
    let m = pat.len();
    let mut out = String::new();
    let mut i: usize = 0;
    assert(s@.subrange(0, n as int) =~= s@);
    assert(out@ + replaced(s@, from@, to@) =~= replaced(s@, from@, to@));
    while i < n
        invariant
            text@ == s@,
            pat@ == from@,
            n == s@.len(),
            m == from@.len(),
            m > 0,
            i <= n,
            out@ + replaced(s@.subrange(i as int, n as int), from@, to@) == replaced(s@, from@, to@),
        decreases n - i,
    {
        let ghost rest = s@.subrange(i as int, n as int);
        let ghost old_out = out@;
        if occurs_at(&text, i, &pat) {
            assert(rest.subrange(0, m as int) =~= s@.subrange(i as int, i + m));
            assert(rest.subrange(m as int, rest.len() as int) =~= s@.subrange(i + m, n as int));
            out.append(to);
            i = i + m;
            assert(old_out + (to@ + replaced(s@.subrange(i as int, n as int), from@, to@))
                =~= out@ + replaced(s@.subrange(i as int, n as int), from@, to@));
        } else {
            proof {
                if rest.len() >= m {
                    assert(rest.subrange(0, m as int) =~= s@.subrange(i as int, i + m));
                }
            }
            assert(rest.drop_first() =~= s@.subrange(i + 1, n as int));
            let one = s.substring_char(i, i + 1);
            assert(one@ =~= seq![rest[0]]);
            out.append(one);
            i = i + 1;
            assert(old_out + (seq![rest[0]] + replaced(s@.subrange(i as int, n as int), from@, to@))
                =~= out@ + replaced(s@.subrange(i as int, n as int), from@, to@));
        }
    }
    assert(out@ + replaced(s@.subrange(n as int, n as int), from@, to@) =~= out@);
    out
}

/// The digit `d` as a one-character string.
fn digit_string(d: u64) -> (r: String)
    requires
        d < 10,
    ensures
        r@ == seq![digit_char(d as nat)],
{
    let digits = "0123456789";
    proof {
        reveal_strlit("0123456789");
    }
    let i = d as usize;
    let one = digits.substring_char(i, i + 1);
    assert(one@ =~= seq![digit_char(d as nat)]);
    String::from_str(one)
}

/// The decimal notation of `n`, as `format!("{}", n)` writes it.
pub fn decimal_string(n: u64) -> (r: String)
    ensures
        r@ == decimal(n as nat),
    decreases n,
{
    if n < 10 {
        digit_string(n)
    } else {
        let mut s = decimal_string(n / 10);
        let d = digit_string(n % 10);
        s.append(d.as_str());
        s
    }
}

/// `s` holds no newline character.
pub open spec fn one_line(s: Seq<char>) -> bool {
    forall|i: int| 0 <= i < s.len() ==> s[i] != '\n'
}

proof fn lemma_newlines_in_prefix(s: Seq<char>, t: Seq<char>, n: nat)
    requires
        n <= s.len(),
    ensures
        newlines_in(s + t, n) == newlines_in(s, n),
    decreases n,
{
    if n > 0 {
        lemma_newlines_in_prefix(s, t, (n - 1) as nat);
        assert((s + t)[n - 1] == s[n - 1]);
    }
}

proof fn lemma_newlines_in_suffix(s: Seq<char>, t: Seq<char>, k: nat)
    requires
        k <= t.len(),
    ensures
        newlines_in(s + t, s.len() + k) == newlines(s) + newlines_in(t, k),
    decreases k,
{
    if k == 0 {
        lemma_newlines_in_prefix(s, t, s.len());
    } else {
        lemma_newlines_in_suffix(s, t, (k - 1) as nat);
        assert((s + t)[s.len() + k - 1] == t[k - 1]);
    }
}

/// Newlines add up over a concatenation.
pub proof fn lemma_newlines_concat(s: Seq<char>, t: Seq<char>)
    ensures
        newlines(s + t) == newlines(s) + newlines(t),
{
    lemma_newlines_in_suffix(s, t, t.len());
}

proof fn lemma_one_line_upto(s: Seq<char>, n: nat)
    requires
        one_line(s),
        n <= s.len(),
    ensures
        newlines_in(s, n) == 0,
    decreases n,
{
    if n > 0 {
        lemma_one_line_upto(s, (n - 1) as nat);
    }
}

/// A text with no newline character has no newlines.
pub proof fn lemma_one_line(s: Seq<char>)
    requires
        one_line(s),
    ensures
        newlines(s) == 0,
{
    lemma_one_line_upto(s, s.len());
}

} // verus!
