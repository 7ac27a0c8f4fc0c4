//! Characters in and out of strings, and the few questions asked of them.

use vstd::prelude::*;

verus! {

/// Whether a character counts as white space, as `char::is_whitespace`
/// answers it: the Unicode `White_Space` property, which is these
/// twenty-five code points.
pub open spec fn is_space(c: char) -> bool {
    let n = c as u32;
    ||| 0x09 <= n <= 0x0D
    ||| n == 0x20
    ||| n == 0x85
    ||| n == 0xA0
    ||| n == 0x1680
    ||| 0x2000 <= n <= 0x200A
    ||| n == 0x2028
    ||| n == 0x2029
    ||| n == 0x202F
    ||| n == 0x205F
    ||| n == 0x3000
}

/// The characters of a string, in order.
pub(crate) fn chars_of(s: &str) -> (v: Vec<char>)
    ensures
        v@ == s@,
{
    broadcast use vstd::string::axiom_spec_iter;
    let mut v: Vec<char> = Vec::new();
    for c in it: s.chars()
        invariant
            it.seq() == s@,
            v@ == s@.take(it.index() as int),
    {
        v.push(c);
        assert(v@ =~= s@.take(it.index() + 1));
    }
    assert(v@ =~= s@);
    v
}

/// A string made of exactly these characters.
#[verifier::external_body]
pub(crate) fn text_of(chars: &[char]) -> (s: String)
    ensures
        s@ == chars@,
{
    chars.iter().collect()
}

/// Whether `c` is white space, as `char::is_whitespace` answers it.
pub(crate) fn space(c: char) -> (b: bool)
    ensures
        b == is_space(c),
{
    let n = c as u32;
    (0x09 <= n && n <= 0x0D) || n == 0x20 || n == 0x85 || n == 0xA0 || n == 0x1680 || (0x2000
        <= n && n <= 0x200A) || n == 0x2028 || n == 0x2029 || n == 0x202F || n == 0x205F || n
        == 0x3000
}

/// `s` without the white space at its end.
pub open spec fn trim_end(s: Seq<char>) -> Seq<char>
    decreases s.len(),
{
    if s.len() > 0 && is_space(s.last()) {
        trim_end(s.drop_last())
    } else {
        s
    }
}

/// `s` without the white space at its start.
pub open spec fn trim_start(s: Seq<char>) -> Seq<char>
    decreases s.len(),
{
    if s.len() > 0 && is_space(s[0]) {
        trim_start(s.drop_first())
    } else {
        s
    }
}

/// `s` without the white space at either end.
pub open spec fn trim(s: Seq<char>) -> Seq<char> {
    trim_start(trim_end(s))
}

/// Whether `s` ends with `suffix`.
pub open spec fn ends_with(s: Seq<char>, suffix: Seq<char>) -> bool {
    suffix.len() <= s.len() && s.subrange(s.len() - suffix.len(), s.len() as int) == suffix
}

/// Whether `part` appears somewhere in `s`.
pub open spec fn holds(s: Seq<char>, part: Seq<char>) -> bool {
    exists|i: int| 0 <= i <= s.len() - part.len() && #[trigger] s.subrange(i, i + part.len()) == part
}

/// Where `c` first appears in `s`.
pub open spec fn index_of(s: Seq<char>, c: char) -> Option<int>
    decreases s.len(),
{
    if s.len() == 0 {
        None
    } else if s[0] == c {
        Some(0)
    } else {
        match index_of(s.drop_first(), c) {
            Some(i) => Some(i + 1),
            None => None,
        }
    }
}

/// A line without the carriage return before its newline.
pub open spec fn without_cr(line: Seq<char>) -> Seq<char> {
    if line.len() > 0 && line.last() == '\r' {
        line.drop_last()
    } else {
        line
    }
}

/// The lines of `s`, as `str::lines` gives them: split at each newline, a
/// carriage return just before one dropped, and no empty line after a final
/// newline.
pub open spec fn lines(s: Seq<char>) -> Seq<Seq<char>>
    decreases s.len(),
{
    if s.len() == 0 {
        Seq::empty()
    } else {
        match index_of(s, '\n') {
            Some(i) => if 0 <= i < s.len() {
                seq![without_cr(s.take(i))] + lines(s.skip(i + 1))
            } else {
                seq![s]
            },
            None => seq![s],
        }
    }
}

pub proof fn lemma_index_of(s: Seq<char>, c: char)
    ensures
        match index_of(s, c) {
            Some(i) => 0 <= i < s.len() && s[i] == c && forall|j: int| 0 <= j < i ==> s[j] != c,
            None => forall|j: int| 0 <= j < s.len() ==> s[j] != c,
        },
    decreases s.len(),
{
    if s.len() > 0 && s[0] != c {
        lemma_index_of(s.drop_first(), c);
        match index_of(s.drop_first(), c) {
            Some(i) => {
                assert forall|j: int| 0 <= j < i + 1 implies s[j] != c by {
                    if j > 0 {
                        assert(s[j] == s.drop_first()[j - 1]);
                    }
                }
            },
            None => {
                assert forall|j: int| 0 <= j < s.len() implies s[j] != c by {
                    if j > 0 {
                        assert(s[j] == s.drop_first()[j - 1]);
                    }
                }
            },
        }
    }
}

/// Where `c` first appears in `s`, from `from` on.
pub fn next_of(s: &Vec<char>, c: char, from: usize) -> (at: usize)
    requires
        from <= s@.len(),
    ensures
        from <= at <= s@.len(),
        at < s@.len() ==> s@[at as int] == c,
        forall|j: int| from <= j < at ==> s@[j] != c,
{
    let mut i = from;
    while i < s.len()
        invariant
            from <= i <= s@.len(),
            forall|j: int| from <= j < i ==> s@[j] != c,
        decreases s@.len() - i,
    {
        if s[i] == c {
            return i;
        }
        i = i + 1;
    }
    i
}

/// How long `s` is once the white space at its end is gone.
pub fn trimmed_end(s: &[char]) -> (k: usize)
    ensures
        k <= s@.len(),
        trim_end(s@) == s@.take(k as int),
{
    let mut k = s.len();
    assert(s@.take(k as int) == s@);
    while k > 0 && space(s[k - 1])
        invariant
            k <= s@.len(),
            trim_end(s@) == trim_end(s@.take(k as int)),
        decreases k,
    {
        assert(s@.take(k as int).drop_last() == s@.take(k - 1));
        k = k - 1;
    }
    k
}

/// Where `s` starts once the white space at its start is gone.
pub fn trimmed_start(s: &[char]) -> (k: usize)
    ensures
        k <= s@.len(),
        trim_start(s@) == s@.skip(k as int),
{
    let mut k: usize = 0;
    assert(s@.skip(0) == s@);
    while k < s.len() && space(s[k])
        invariant
            k <= s@.len(),
            trim_start(s@) == trim_start(s@.skip(k as int)),
        decreases s@.len() - k,
    {
        assert(s@.skip(k as int).drop_first() == s@.skip(k + 1));
        k = k + 1;
    }
    k
}

/// Whether `s` ends with `suffix`.
pub fn ends_with_chars(s: &[char], suffix: &[char]) -> (b: bool)
    ensures
        b == ends_with(s@, suffix@),
{
    if suffix.len() > s.len() {
        return false;
    }
    let start = s.len() - suffix.len();
    let mut i: usize = 0;
    while i < suffix.len()
        invariant
            start == s@.len() - suffix@.len(),
            s@.len() == s.len(),
            0 <= i <= suffix@.len(),
            forall|j: int| 0 <= j < i ==> s@[start + j] == suffix@[j],
        decreases suffix@.len() - i,
    {
        if s[start + i] != suffix[i] {
            assert(s@.subrange(start as int, s@.len() as int)[i as int] != suffix@[i as int]);
            return false;
        }
        i = i + 1;
    }
    assert(s@.subrange(start as int, s@.len() as int) =~= suffix@);
    true
}

/// Whether `part` appears somewhere in `s`.
pub fn holds_chars(s: &[char], part: &[char]) -> (b: bool)
    ensures
        b == holds(s@, part@),
{
    if part.len() > s.len() {
        return false;
    }
    let mut at: usize = 0;
    while at <= s.len() - part.len()
        invariant
            part@.len() <= s@.len(),
            0 <= at <= s@.len() - part@.len() + 1,
            forall|i: int| 0 <= i < at ==> #[trigger] s@.subrange(i, i + part@.len()) != part@,
        decreases s@.len() - part@.len() + 1 - at,
    {
        let mut k: usize = 0;
        let mut same = true;
        while k < part.len()
            invariant
                part@.len() <= s@.len(),
                at <= s@.len() - part@.len(),
                s@.len() == s.len(),
                0 <= k <= part@.len(),
                same == forall|j: int| 0 <= j < k ==> s@[at + j] == part@[j],
            decreases part@.len() - k,
        {
            if s[at + k] != part[k] {
                same = false;
            }
            k = k + 1;
        }
        if same {
            assert(s@.subrange(at as int, at + part@.len()) =~= part@);
            return true;
        }
        proof {
            let window = s@.subrange(at as int, at + part@.len());
            let j = choose|j: int| 0 <= j < k && s@[at + j] != part@[j];
            assert(window[j] == s@[at + j]);
        }
        at = at + 1;
    }
    false
}

/// The first `c` in `s` is at `k`.
pub proof fn lemma_index_of_is(s: Seq<char>, c: char, k: int)
    requires
        0 <= k < s.len(),
        s[k] == c,
        forall|j: int| 0 <= j < k ==> s[j] != c,
    ensures
        index_of(s, c) == Some(k),
{
    lemma_index_of(s, c);
}

/// There is no `c` in `s`.
pub proof fn lemma_index_of_none(s: Seq<char>, c: char)
    requires
        forall|j: int| 0 <= j < s.len() ==> s[j] != c,
    ensures
        index_of(s, c) is None,
{
    lemma_index_of(s, c);
}

/// The characters of `s` from `from` up to `to`.
pub fn take_chars(s: &[char], from: usize, to: usize) -> (v: Vec<char>)
    requires
        from <= to <= s@.len(),
    ensures
        v@ == s@.subrange(from as int, to as int),
{
    let mut v: Vec<char> = Vec::new();
    let mut i = from;
    while i < to
        invariant
            from <= i <= to <= s@.len(),
            v@ == s@.subrange(from as int, i as int),
        decreases to - i,
    {
        v.push(s[i]);
        i = i + 1;
    }
    v
}

/// The first line of `s` from `start` on: where it ends, and where the next
/// one begins.
pub proof fn lemma_next_line(s: Seq<char>, start: int, newline: int)
    requires
        0 <= start < newline <= s.len() || (0 <= start == newline < s.len()),
        newline < s.len() ==> s[newline] == '\n',
        forall|j: int| start <= j < newline ==> s[j] != '\n',
    ensures
        lines(s.skip(start)) == seq![
            if newline < s.len() {
                without_cr(s.subrange(start, newline))
            } else {
                s.subrange(start, newline)
            },
        ] + lines(s.skip(if newline < s.len() { newline + 1 } else { newline })),
{
    let t = s.skip(start);
    assert(t.len() > 0);
    if newline < s.len() {
        lemma_index_of_is(t, '\n', newline - start);
        assert(t.take(newline - start) == s.subrange(start, newline));
        assert(t.skip(newline - start + 1) == s.skip(newline + 1));
    } else {
        assert forall|j: int| 0 <= j < t.len() implies t[j] != '\n' by {
            assert(t[j] == s[start + j]);
        }
        lemma_index_of_none(t, '\n');
        assert(t == s.subrange(start, newline));
        assert(s.skip(newline).len() == 0);
        assert(lines(s.skip(newline)) == Seq::<Seq<char>>::empty());
    }
}

/// A digit, as a character.
pub open spec fn digit(d: int) -> char {
    if d == 0 { '0' }
    else if d == 1 { '1' }
    else if d == 2 { '2' }
    else if d == 3 { '3' }
    else if d == 4 { '4' }
    else if d == 5 { '5' }
    else if d == 6 { '6' }
    else if d == 7 { '7' }
    else if d == 8 { '8' }
    else { '9' }
}

/// A number of no sign, in decimal.
pub open spec fn digits(n: nat) -> Seq<char>
    decreases n,
{
    if n < 10 {
        seq![digit(n as int)]
    } else {
        digits(n / 10) + seq![digit((n % 10) as int)]
    }
}

/// A whole number in decimal, as `{}` writes it.
pub open spec fn decimal(n: int) -> Seq<char> {
    if n < 0 {
        seq!['-'] + digits((-n) as nat)
    } else {
        digits(n as nat)
    }
}

fn digit_char(d: u128) -> (c: char)
    requires
        d < 10,
    ensures
        c == digit(d as int),
{
    match d {
        0 => '0',
        1 => '1',
        2 => '2',
        3 => '3',
        4 => '4',
        5 => '5',
        6 => '6',
        7 => '7',
        8 => '8',
        _ => '9',
    }
}

/// A number of no sign, in decimal.
pub fn digits_of(n: u128) -> (v: Vec<char>)
    ensures
        v@ == digits(n as nat),
    decreases n,
{
    if n < 10 {
        let mut v = Vec::new();
        v.push(digit_char(n));
        v
    } else {
        let mut v = digits_of(n / 10);
        v.push(digit_char(n % 10));
        v
    }
}

/// A whole number in decimal, as `{}` writes it.
pub fn decimal_of(n: i64) -> (v: Vec<char>)
    ensures
        v@ == decimal(n as int),
{
    if n < 0 {
        let size = (-(n as i128)) as u128;
        let mut v = Vec::new();
        v.push('-');
        let mut rest = digits_of(size);
        v.append(&mut rest);
        v
    } else {
        digits_of(n as u128)
    }
}

} // verus!
