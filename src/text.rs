//! Reading a client's text line: trimming, splitting, matching and
//! reading numbers, over the characters of the line.
use vstd::prelude::*;

verus! {

/// Whether `c` is white space in Unicode's sense (`char::is_whitespace`).
pub open spec fn is_space(c: char) -> bool {
    let u = c as u32;
    ||| u == 0x20
    ||| 0x09 <= u <= 0x0d
    ||| u == 0x85
    ||| u == 0xa0
    ||| u == 0x1680
    ||| 0x2000 <= u <= 0x200a
    ||| u == 0x2028
    ||| u == 0x2029
    ||| u == 0x202f
    ||| u == 0x205f
    ||| u == 0x3000
}

pub fn is_space_char(c: char) -> (r: bool)
    ensures
        r == is_space(c),
{
    let u = c as u32;
    u == 0x20 || (0x09 <= u && u <= 0x0d) || u == 0x85 || u == 0xa0 || u == 0x1680 || (0x2000
        <= u && u <= 0x200a) || u == 0x2028 || u == 0x2029 || u == 0x202f || u == 0x205f || u
        == 0x3000
}

/// `t` without its leading white space.
pub open spec fn trim_start(t: Seq<char>) -> Seq<char>
    decreases t.len(),
{
    if t.len() > 0 && is_space(t[0]) {
        trim_start(t.drop_first())
    } else {
        t
    }
}

/// `t` without its trailing white space.
pub open spec fn trim_end(t: Seq<char>) -> Seq<char>
    decreases t.len(),
{
    if t.len() > 0 && is_space(t.last()) {
        trim_end(t.drop_last())
    } else {
        t
    }
}

/// `t` without leading and trailing white space.
pub open spec fn trim(t: Seq<char>) -> Seq<char> {
    trim_end(trim_start(t))
}

/// Whether `i` is the position of the first space of `m`.
pub open spec fn is_first_space(m: Seq<char>, i: int) -> bool {
    &&& 0 <= i < m.len()
    &&& m[i] == ' '
    &&& forall|j: int| 0 <= j < i ==> m[j] != ' '
}

/// `m` split at its first space into a word and the rest, or the whole of
/// `m` where it has no space.
pub open spec fn split_word(m: Seq<char>) -> (Seq<char>, Option<Seq<char>>) {
    if exists|i: int| is_first_space(m, i) {
        let i = choose|i: int| is_first_space(m, i);
        (m.take(i), Some(m.skip(i + 1)))
    } else {
        (m, None)
    }
}

pub open spec fn is_digit(c: char) -> bool {
    0x30 <= c as u32 <= 0x39
}

/// The value of the decimal digits `d`.
pub open spec fn digits_value(d: Seq<char>) -> nat
    decreases d.len(),
{
    if d.len() == 0 {
        0
    } else {
        digits_value(d.drop_last()) * 10 + (d.last() as u32 - 0x30) as nat
    }
}

/// The digits of a number's text: the text without a leading `+`.
pub open spec fn digits_part(s: Seq<char>) -> Seq<char> {
    if s.len() > 0 && s[0] == '+' {
        s.drop_first()
    } else {
        s
    }
}

pub open spec fn all_digits(d: Seq<char>) -> bool {
    forall|i: int| 0 <= i < d.len() ==> is_digit(#[trigger] d[i])
}

/// The `usize` that `s` spells: an optional `+` and one or more decimal
/// digits whose value fits (`str::parse::<usize>`).
pub open spec fn usize_of(s: Seq<char>) -> Option<usize> {
    let d = digits_part(s);
    if d.len() > 0 && all_digits(d) && digits_value(d) <= usize::MAX {
        Some(digits_value(d) as usize)
    } else {
        None
    }
}

/// The characters of `s`.
pub fn chars_of(s: &str) -> (r: Vec<char>)
    ensures
        r@ == s@,
{
    let mut out: Vec<char> = Vec::new();
    for c in it: s.chars()
        invariant
            out@ == it.history(),
    {
        out.push(c);
    }
    out
}

/// The bounds of `cs` without leading and trailing white space.
pub fn trim_bounds(cs: &Vec<char>) -> (r: (usize, usize))
    ensures
        r.0 <= r.1 <= cs@.len(),
        cs@.subrange(r.0 as int, r.1 as int) == trim(cs@),
{
    let n = cs.len();
    let mut start: usize = 0;
    assert(cs@.subrange(0, n as int) =~= cs@);
    while start < n && is_space_char(cs[start])
        invariant
            start <= n == cs@.len(),
            trim_start(cs@) == trim_start(cs@.subrange(start as int, n as int)),
        decreases n - start,
    {
        assert(cs@.subrange(start as int, n as int).drop_first() =~= cs@.subrange(
            start + 1,
            n as int,
        ));
        start += 1;
    }
    assert(trim_start(cs@) == cs@.subrange(start as int, n as int));
    let mut end: usize = n;
    while end > start && is_space_char(cs[end - 1])
        invariant
            start <= end <= n == cs@.len(),
            trim(cs@) == trim_end(cs@.subrange(start as int, end as int)),
        decreases end - start,
    {
        assert(cs@.subrange(start as int, end as int).drop_last() =~= cs@.subrange(
            start as int,
            end - 1,
        ));
        end -= 1;
    }
    (start, end)
}

/// The first space of `cs` in `from .. to`.
pub fn find_space(cs: &Vec<char>, from: usize, to: usize) -> (r: Option<usize>)
    requires
        from <= to <= cs@.len(),
    ensures
        match r {
            Some(i) => from <= i < to && is_first_space(
                cs@.subrange(from as int, to as int),
                i - from,
            ),
            None => forall|j: int| from <= j < to ==> cs@[j] != ' ',
        },
{
    let mut i = from;
    while i < to
        invariant
            from <= i <= to <= cs@.len(),
            forall|j: int| from <= j < i ==> cs@[j] != ' ',
        decreases to - i,
    {
        if cs[i] == ' ' {
            let ghost m = cs@.subrange(from as int, to as int);
            assert forall|j: int| 0 <= j < i - from implies m[j] != ' ' by {
                assert(m[j] == cs@[from + j]);
            }
            return Some(i);
        }
        i += 1;
    }
    None
}

/// Whether `cs[from .. to]` is the text `word`.
pub fn matches_word(cs: &Vec<char>, from: usize, to: usize, word: &str) -> (r: bool)
    requires
        from <= to <= cs@.len(),
    ensures
        r == (cs@.subrange(from as int, to as int) == word@),
{
    let n = word.unicode_len();
    if to - from != n {
        return false;
    }
    let mut k: usize = 0;
    while k < n
        invariant
            k <= n == word@.len() == to - from,
            from <= to <= cs@.len(),
            forall|j: int| 0 <= j < k ==> cs@[from + j] == word@[j],
        decreases n - k,
    {
        if cs[from + k] != word.get_char(k) {
            assert(cs@.subrange(from as int, to as int)[k as int] != word@[k as int]);
            return false;
        }
        k += 1;
    }
    assert(cs@.subrange(from as int, to as int) =~= word@);
    true
}

/// A prefix of a digit string is worth no more than the whole.
proof fn lemma_digits_prefix(d: Seq<char>, k: int)
    requires
        0 <= k <= d.len(),
    ensures
        digits_value(d.take(k)) <= digits_value(d),
    decreases d.len(),
{
    if k < d.len() {
        assert(d.drop_last().take(k) =~= d.take(k));
        lemma_digits_prefix(d.drop_last(), k);
    } else {
        assert(d.take(k) =~= d);
    }
}

/// The `usize` that `cs[from .. to]` spells, as `str::parse` reads it.
pub fn parse_usize(cs: &Vec<char>, from: usize, to: usize) -> (r: Option<usize>)
    requires
        from <= to <= cs@.len(),
    ensures
        r == usize_of(cs@.subrange(from as int, to as int)),
{
    let ghost s = cs@.subrange(from as int, to as int);
    let mut i = from;
    if i < to && cs[i] == '+' {
        i += 1;
    }
    let ghost d = cs@.subrange(i as int, to as int);
    assert(d == digits_part(s));
    if i == to {
        return None;
    }
    let mut acc: usize = 0;
    let mut k = i;
    while k < to
        invariant
            from <= i <= k <= to <= cs@.len(),
            i < to,
            d == cs@.subrange(i as int, to as int),
            s == cs@.subrange(from as int, to as int),
            d == digits_part(s),
            forall|j: int| 0 <= j < k - i ==> is_digit(#[trigger] d[j]),
            acc as nat == digits_value(d.take(k - i)),
        decreases to - k,
    {
        let c = cs[k];
        let u = c as u32;
        assert(d[k - i] == c);
        if u < 0x30 || u > 0x39 {
            assert(!is_digit(d[k - i]));
            return None;
        }
        assert(d.take(k - i + 1).drop_last() =~= d.take(k - i));
        assert(d.take(k - i + 1).last() == c);
        let digit = (u - 0x30) as usize;
        assert(digits_value(d.take(k - i + 1)) == acc * 10 + digit);
        match acc.checked_mul(10) {
            None => {
                proof {
                    lemma_digits_prefix(d, k - i + 1);
                }
                return None;
            },
            Some(t) => match t.checked_add(digit) {
                None => {
                    proof {
                        lemma_digits_prefix(d, k - i + 1);
                    }
                    return None;
                },
                Some(v) => {
                    acc = v;
                },
            },
        }
        k += 1;
    }
    assert(d.take(k - i) =~= d);
    Some(acc)
}

} // verus!
