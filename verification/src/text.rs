//! Decimal text: how numbers are written into names and read back.

use vstd::prelude::*;
use vstd::string::*;

verus! {

/// The character that stands for the digit `d`.
pub open spec fn digit_char(d: int) -> char {
    (48 + d) as u8 as char
}

/// Whether `c` is one of `'0'..='9'`.
pub open spec fn is_digit(c: char) -> bool {
    '0' <= c && c <= '9'
}

/// The value of the digit `c`.
pub open spec fn digit_value(c: char) -> int {
    c as int - 48
}

/// `n` in decimal, without sign or padding.
pub open spec fn decimal(n: nat) -> Seq<char>
    decreases n,
{
    if n < 10 {
        seq![digit_char(n as int)]
    } else {
        decimal(n / 10).push(digit_char((n % 10) as int))
    }
}

/// `n` in decimal, with a leading zero where it has one digit only.
pub open spec fn padded2(n: nat) -> Seq<char> {
    if n < 10 {
        seq!['0'] + decimal(n)
    } else {
        decimal(n)
    }
}

/// The number that the digits of `s` write, read from the left.
pub open spec fn digits_value(s: Seq<char>) -> nat
    decreases s.len(),
{
    if s.len() == 0 {
        0
    } else {
        (digits_value(s.drop_last()) * 10 + digit_value(s.last())) as nat
    }
}

/// How many digits `s` starts with.
pub open spec fn digit_run(s: Seq<char>) -> nat
    decreases s.len(),
{
    if s.len() > 0 && is_digit(s[0]) {
        1 + digit_run(s.drop_first())
    } else {
        0
    }
}

/// The number at the start of `s` and what follows it: the longest run of
/// digits, which must not be empty nor write more than `u32::MAX`.
pub open spec fn leading_number(s: Seq<char>) -> Option<(nat, Seq<char>)> {
    let k = digit_run(s) as int;
    if k == 0 || digits_value(s.take(k)) > u32::MAX {
        None
    } else {
        Some((digits_value(s.take(k)), s.skip(k)))
    }
}

/// A number at the start of `s` that the character `stop` follows, and what
/// comes after `stop`.
pub open spec fn field(s: Seq<char>, stop: char) -> Option<(nat, Seq<char>)> {
    match leading_number(s) {
        Some((n, rest)) => if rest.len() > 0 && rest[0] == stop {
            Some((n, rest.drop_first()))
        } else {
            None
        },
        None => None,
    }
}

/// What follows the last `/` of `path`; all of it where there is none.
pub open spec fn file_name_of(path: Seq<char>) -> Seq<char>
    decreases path.len(),
{
    if path.len() == 0 {
        path
    } else if path.last() == '/' {
        Seq::<char>::empty()
    } else {
        file_name_of(path.drop_last()).push(path.last())
    }
}

/// Whether `s` holds no `/`.
pub open spec fn slashless(s: Seq<char>) -> bool {
    forall|j: int| 0 <= j < s.len() ==> #[trigger] s[j] != '/'
}

/// The file name starts after a `/` that no other `/` follows, or at the
/// start where the path holds none.
pub proof fn lemma_file_name_of(path: Seq<char>, start: int)
    requires
        0 <= start <= path.len(),
        slashless(path.skip(start)),
        start == 0 || path[start - 1] == '/',
    ensures
        file_name_of(path) == path.skip(start),
    decreases path.len(),
{
    if path.len() == 0 {
        assert(path.skip(start) =~= path);
    } else if start == path.len() {
        assert(path.skip(start) =~= Seq::<char>::empty());
    } else {
        let rest = path.drop_last();
        assert(path.skip(start)[path.len() - 1 - start] == path.last());
        assert forall|j: int| 0 <= j < rest.skip(start).len() implies #[trigger] rest.skip(
            start,
        )[j] != '/' by {
            assert(rest.skip(start)[j] == path.skip(start)[j]);
        }
        lemma_file_name_of(rest, start);
        assert(path.skip(start) =~= rest.skip(start).push(path.last()));
    }
}

/// Two texts without a `/` make one without a `/`.
pub proof fn lemma_slashless_joined(a: Seq<char>, b: Seq<char>)
    requires
        slashless(a),
        slashless(b),
    ensures
        slashless(a + b),
{
    assert forall|j: int| 0 <= j < (a + b).len() implies #[trigger] (a + b)[j] != '/' by {
        if j < a.len() {
            assert((a + b)[j] == a[j]);
        } else {
            assert((a + b)[j] == b[j - a.len()]);
        }
    }
}

/// A sequence that starts with `k` digits has a run of at least `k`; the run
/// is `k` exactly where the digits end there.
pub proof fn lemma_digit_run(s: Seq<char>, k: int)
    requires
        0 <= k <= s.len(),
        forall|j: int| 0 <= j < k ==> is_digit(#[trigger] s[j]),
    ensures
        digit_run(s) >= k,
        (k == s.len() || !is_digit(s[k])) ==> digit_run(s) == k,
    decreases k,
{
    if k > 0 {
        let t = s.drop_first();
        assert forall|j: int| 0 <= j < k - 1 implies is_digit(#[trigger] t[j]) by {
            assert(t[j] == s[j + 1]);
        }
        lemma_digit_run(t, k - 1);
        if k < s.len() {
            assert(t[k - 1] == s[k]);
        }
    }
}

/// A longer prefix of digits writes no smaller number.
pub proof fn lemma_digits_value_grows(s: Seq<char>, i: int, j: int)
    requires
        0 <= i <= j <= s.len(),
        forall|k: int| 0 <= k < j ==> is_digit(#[trigger] s[k]),
    ensures
        digits_value(s.take(i)) <= digits_value(s.take(j)),
    decreases j - i,
{
    if i < j {
        lemma_digits_value_grows(s, i, j - 1);
        assert(s.take(j).drop_last() =~= s.take(j - 1));
        assert(s.take(j).last() == s[j - 1]);
    }
}

/// The digits of `n` are digits, and they write `n`.
pub proof fn lemma_decimal(n: nat)
    ensures
        decimal(n).len() >= 1,
        forall|j: int| 0 <= j < decimal(n).len() ==> is_digit(#[trigger] decimal(n)[j]),
        digits_value(decimal(n)) == n,
    decreases n,
{
    if n < 10 {
        let s = decimal(n);
        assert(s.drop_last() =~= Seq::<char>::empty());
        assert(digits_value(s.drop_last()) == 0);
        assert(s.last() == digit_char(n as int));
    } else {
        lemma_decimal(n / 10);
        let s = decimal(n);
        assert(s.drop_last() =~= decimal(n / 10));
        assert(s.last() == digit_char((n % 10) as int));
    }
}

/// The two-digit form of `n` is made of digits, and they write `n`.
pub proof fn lemma_padded2(n: nat)
    ensures
        padded2(n).len() >= 2,
        forall|j: int| 0 <= j < padded2(n).len() ==> is_digit(#[trigger] padded2(n)[j]),
        digits_value(padded2(n)) == n,
{
    lemma_decimal(n);
    if n < 10 {
        let s = padded2(n);
        assert(s =~= seq!['0', digit_char(n as int)]);
        assert(s.drop_last() =~= seq!['0']);
        assert(s.drop_last().drop_last() =~= Seq::<char>::empty());
        assert(digits_value(s.drop_last().drop_last()) == 0);
        assert(digits_value(s.drop_last()) == 0);
    } else {
        lemma_decimal(n / 10);
    }
}

/// Digits that write `n`, followed by `stop` and more text, read back as the
/// field `n` with that text left over.
pub proof fn lemma_field_reads_back(digits: Seq<char>, n: nat, stop: char, rest: Seq<char>)
    requires
        digits.len() >= 1,
        forall|j: int| 0 <= j < digits.len() ==> is_digit(#[trigger] digits[j]),
        digits_value(digits) == n,
        n <= u32::MAX,
        !is_digit(stop),
    ensures
        field(digits + seq![stop] + rest, stop) == Some((n, rest)),
{
    let s = digits + seq![stop] + rest;
    let k = digits.len() as int;
    assert(s[k] == stop);
    assert forall|j: int| 0 <= j < k implies is_digit(#[trigger] s[j]) by {
        assert(s[j] == digits[j]);
    }
    lemma_digit_run(s, k);
    assert(s.take(k) =~= digits);
    assert(s.skip(k).drop_first() =~= rest);
}

/// The text of one digit.
fn digit_text(d: u32) -> (s: &'static str)
    requires
        d < 10,
    ensures
        s@ == seq![digit_char(d as int)],
{
    proof {
        reveal_strlit("0");
        reveal_strlit("1");
        reveal_strlit("2");
        reveal_strlit("3");
        reveal_strlit("4");
        reveal_strlit("5");
        reveal_strlit("6");
        reveal_strlit("7");
        reveal_strlit("8");
        reveal_strlit("9");
    }
    let s = match d {
        0 => "0",
        1 => "1",
        2 => "2",
        3 => "3",
        4 => "4",
        5 => "5",
        6 => "6",
        7 => "7",
        8 => "8",
        _ => "9",
    };
    assert(s@ =~= seq![digit_char(d as int)]);
    s
}

/// Appends `n` in decimal to `out`.
pub fn push_decimal(out: &mut String, n: u32)
    ensures
        final(out)@ == old(out)@ + decimal(n as nat),
    decreases n,
{
    if n >= 10 {
        push_decimal(out, n / 10);
    }
    out.append(digit_text(n % 10));
    assert(out@ =~= old(out)@ + decimal(n as nat));
}

/// Appends `n` in decimal to `out`, at least two digits wide.
pub fn push_padded2(out: &mut String, n: u32)
    ensures
        final(out)@ == old(out)@ + padded2(n as nat),
{
    if n < 10 {
        proof {
            reveal_strlit("0");
        }
        out.append("0");
    }
    push_decimal(out, n);
    assert(out@ =~= old(out)@ + padded2(n as nat));
}

/// The characters of `s`, one by one.
pub fn chars_of(s: &str) -> (v: Vec<char>)
    ensures
        v@ == s@,
{
    let mut v: Vec<char> = Vec::new();
    for c in it: s.chars()
        invariant
            it.seq() == s@,
            v@ == s@.take(it.index() as int),
    {
        v.push(c);
        assert(v@ =~= s@.take(it.index() + 1));
    }
    assert(v@ =~= s@);
    v
}

/// The part of `path` that follows its last `/`: the file name.
pub fn file_name(path: &Vec<char>) -> (name: Vec<char>)
    ensures
        name@ == file_name_of(path@),
{
    let mut start: usize = path.len();
    while start > 0 && path[start - 1] != '/'
        invariant
            start <= path.len(),
            slashless(path@.skip(start as int)),
        decreases start,
    {
        proof {
            let shorter = path@.skip(start as int);
            let longer = path@.skip(start - 1);
            assert forall|j: int| 0 <= j < longer.len() implies #[trigger] longer[j] != '/' by {
                if j > 0 {
                    assert(longer[j] == shorter[j - 1]);
                }
            }
        }
        start = start - 1;
    }
    let mut name: Vec<char> = Vec::new();
    let mut i: usize = start;
    while i < path.len()
        invariant
            start <= i <= path.len(),
            name@ == path@.subrange(start as int, i as int),
        decreases path.len() - i,
    {
        name.push(path[i]);
        proof {
            assert(name@ =~= path@.subrange(start as int, i + 1));
        }
        i = i + 1;
    }
    proof {
        lemma_file_name_of(path@, start as int);
        assert(path@.subrange(start as int, path@.len() as int) =~= path@.skip(start as int));
    }
    name
}

/// Whether `chars` begins with `prefix`.
pub fn starts_with(chars: &Vec<char>, prefix: &Vec<char>) -> (r: bool)
    ensures
        r == (prefix@.len() <= chars@.len() && chars@.take(prefix@.len() as int) == prefix@),
{
    if prefix.len() > chars.len() {
        return false;
    }
    let mut i: usize = 0;
    while i < prefix.len()
        invariant
            i <= prefix.len() <= chars.len(),
            chars@.take(i as int) == prefix@.take(i as int),
        decreases prefix.len() - i,
    {
        if chars[i] != prefix[i] {
            proof {
                let n = prefix@.len() as int;
                assert(chars@.take(n)[i as int] != prefix@[i as int]);
            }
            return false;
        }
        proof {
            assert(chars@.take(i + 1) =~= chars@.take(i as int).push(chars@[i as int]));
            assert(prefix@.take(i + 1) =~= prefix@.take(i as int).push(prefix@[i as int]));
        }
        i = i + 1;
    }
    proof {
        assert(prefix@.take(prefix@.len() as int) =~= prefix@);
    }
    true
}

/// Reads the field at `start`: a number that `stop` follows. Returns the
/// number and the place after `stop`.
pub fn read_field(chars: &Vec<char>, start: usize, stop: char) -> (r: Option<(u32, usize)>)
    requires
        start <= chars.len(),
    ensures
        match field(chars@.skip(start as int), stop) {
            Some((n, rest)) => r matches Some((v, next)) && v == n && start < next <= chars.len()
                && rest == chars@.skip(next as int),
            None => r is None,
        },
{
    let ghost s = chars@.skip(start as int);
    let mut i: usize = start;
    let mut value: u64 = 0;
    let mut fits = true;
    while i < chars.len() && chars[i] >= '0' && chars[i] <= '9'
        invariant
            start <= i <= chars.len(),
            s == chars@.skip(start as int),
            forall|j: int| 0 <= j < i - start ==> is_digit(#[trigger] s[j]),
            fits ==> value == digits_value(s.take(i - start)) && value <= u32::MAX,
            !fits ==> exists|k: int| 0 <= k <= i - start && digits_value(s.take(k)) > u32::MAX,
        decreases chars.len() - i,
    {
        let ghost k = i - start;
        let d: u64 = (chars[i] as u64) - 48;
        proof {
            assert(s[k] == chars@[i as int]);
            assert(s.take(k + 1).drop_last() =~= s.take(k));
            assert(s.take(k + 1).last() == s[k]);
        }
        if fits {
            value = value * 10 + d;
            if value > 0xffff_ffff {
                fits = false;
            }
        }
        i = i + 1;
    }
    proof {
        let k = i - start;
        if i < chars.len() {
            assert(s[k] == chars@[i as int]);
        }
        lemma_digit_run(s, k);
        assert(digit_run(s) == k);
        if !fits {
            let w = choose|w: int| 0 <= w <= k && digits_value(s.take(w)) > u32::MAX;
            lemma_digits_value_grows(s, w, k);
            assert(s.take(k).take(w) =~= s.take(w));
        }
        assert(s.skip(k) =~= chars@.skip(i as int));
    }
    if i == start || !fits {
        return None;
    }
    if i < chars.len() && chars[i] == stop {
        proof {
            assert(chars@.skip(i as int)[0] == chars@[i as int]);
            assert(chars@.skip(i as int).drop_first() =~= chars@.skip(i + 1));
        }
        Some((value as u32, i + 1))
    } else {
        proof {
            if i < chars.len() {
                assert(chars@.skip(i as int)[0] == chars@[i as int]);
            }
        }
        None
    }
}

} // verus!
