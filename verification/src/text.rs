//! Character-level helpers on strings.
//!
//! A string is read as the sequence of its characters. Matching is done on
//! `Vec<char>`; slices of the string itself are handed back as `&str`.

use vstd::prelude::*;
use vstd::string::*;

verus! {

/// `pattern` occurs in `s` at position `at`.
pub open spec fn occurs_at(s: Seq<char>, pattern: Seq<char>, at: int) -> bool {
    &&& 0 <= at
    &&& at + pattern.len() <= s.len()
    &&& s.subrange(at, at + pattern.len()) == pattern
}

/// `pattern` occurs somewhere in `s`.
pub open spec fn occurs_in(s: Seq<char>, pattern: Seq<char>) -> bool {
    exists|at: int| occurs_at(s, pattern, at)
}

/// The position of the first `c` in `s`, or the length of `s` where it holds none.
pub open spec fn first_index_of(s: Seq<char>, c: char) -> int
    decreases s.len(),
{
    if s.len() == 0 {
        0
    } else if s[0] == c {
        0
    } else {
        1 + first_index_of(s.drop_first(), c)
    }
}

/// `first_index_of` is the one position before which `c` does not occur and
/// at which, if it lies inside `s`, `c` stands.
pub proof fn lemma_first_index_of(s: Seq<char>, c: char)
    ensures
        0 <= first_index_of(s, c) <= s.len(),
        first_index_of(s, c) < s.len() ==> s[first_index_of(s, c)] == c,
        forall|j: int| 0 <= j < first_index_of(s, c) ==> s[j] != c,
        first_index_of(s, c) < s.len() <==> s.contains(c),
    decreases s.len(),
{
    if s.len() == 0 {
    } else if s[0] == c {
        assert(s.contains(c));
    } else {
        let rest = s.drop_first();
        lemma_first_index_of(rest, c);
        let r = first_index_of(rest, c);
        assert forall|j: int| 0 <= j < 1 + r implies s[j] != c by {
            if j > 0 {
                assert(s[j] == rest[j - 1]);
            }
        }
        if r < rest.len() {
            assert(s[1 + r] == rest[r]);
            assert(s.contains(c));
        } else {
            assert forall|j: int| 0 <= j < s.len() implies s[j] != c by {}
        }
    }
}

/// A position at which `c` stands and before which it does not is the first.
pub proof fn lemma_first_index_is(s: Seq<char>, c: char, at: int)
    requires
        0 <= at < s.len(),
        s[at] == c,
        forall|j: int| 0 <= j < at ==> s[j] != c,
    ensures
        first_index_of(s, c) == at,
{
    lemma_first_index_of(s, c);
    assert(s.contains(c));
}

/// The characters of `s`, in order.
pub fn chars_of(s: &str) -> (v: Vec<char>)
    ensures
        v@ == s@,
{
    let mut v: Vec<char> = Vec::new();
    for c in it: s.chars()
        invariant
            it.seq() == s@,
            v@ == it.seq().take(it.index()),
    {
        v.push(c);
    }
    v
}

/// Whether `pattern` stands in `s` at position `at`.
pub fn matches_at(s: &Vec<char>, pattern: &Vec<char>, at: usize) -> (found: bool)
    ensures
        found == occurs_at(s@, pattern@, at as int),
{
    if at > s.len() || pattern.len() > s.len() - at {
        return false;
    }
    let mut i: usize = 0;
    while i < pattern.len()
        invariant
            at + pattern.len() <= s.len(),
            i <= pattern.len(),
            forall|j: int| 0 <= j < i ==> s@[at + j] == pattern@[j],
        decreases pattern.len() - i,
    {
        if s[at + i] != pattern[i] {
            proof {
                let sub = s@.subrange(at as int, at + pattern.len());
                assert(sub[i as int] == s@[at + i]);
            }
            return false;
        }
        i += 1;
    }
    assert(s@.subrange(at as int, at + pattern.len()) =~= pattern@);
    true
}

/// Whether two strings hold the same characters.
pub fn same_text(a: &str, b: &str) -> (same: bool)
    ensures
        same == (a@ == b@),
{
    let x = chars_of(a);
    let y = chars_of(b);
    if x.len() != y.len() {
        return false;
    }
    let same = matches_at(&x, &y, 0);
    proof {
        assert(x@.subrange(0, x@.len() as int) =~= x@);
    }
    same
}

/// Whether `s` begins with `pattern`.
pub fn starts_with(s: &Vec<char>, pattern: &Vec<char>) -> (found: bool)
    ensures
        found == occurs_at(s@, pattern@, 0),
{
    matches_at(s, pattern, 0)
}

/// Whether `pattern` occurs anywhere in `s`.
pub fn contains(s: &Vec<char>, pattern: &Vec<char>) -> (found: bool)
    ensures
        found == occurs_in(s@, pattern@),
{
    if pattern.len() > s.len() {
        return false;
    }
    let last: usize = s.len() - pattern.len();
    let mut at: usize = 0;
    loop
        invariant
            last == s.len() - pattern.len(),
            at <= last,
            forall|k: int| 0 <= k < at ==> !occurs_at(s@, pattern@, k),
        decreases last - at,
    {
        if matches_at(s, pattern, at) {
            return true;
        }
        if at == last {
            return false;
        }
        at += 1;
    }
}

/// The position of the first `c` in `s`, or the length of `s`.
pub fn find_char(s: &Vec<char>, c: char) -> (at: usize)
    ensures
        at == first_index_of(s@, c),
{
    let mut at: usize = 0;
    assert(s@.skip(0) =~= s@);
    while at < s.len()
        invariant
            at <= s.len(),
            first_index_of(s@, c) == at + first_index_of(s@.skip(at as int), c),
        decreases s.len() - at,
    {
        proof {
            assert(s@.skip(at as int)[0] == s@[at as int]);
            assert(s@.skip(at as int).drop_first() =~= s@.skip(at + 1));
        }
        if s[at] == c {
            return at;
        }
        at += 1;
    }
    at
}

/// The character of the decimal digit `d`.
pub open spec fn digit(d: nat) -> char {
    if d == 0 {
        '0'
    } else if d == 1 {
        '1'
    } else if d == 2 {
        '2'
    } else if d == 3 {
        '3'
    } else if d == 4 {
        '4'
    } else if d == 5 {
        '5'
    } else if d == 6 {
        '6'
    } else if d == 7 {
        '7'
    } else if d == 8 {
        '8'
    } else {
        '9'
    }
}

/// The decimal numeral of `n`: its digits from the highest to the lowest,
/// without leading zeros.
pub open spec fn decimal(n: nat) -> Seq<char>
    decreases n,
{
    if n < 10 {
        seq![digit(n)]
    } else {
        decimal(n / 10).push(digit(n % 10))
    }
}

/// The text of the decimal digit `d`.
fn digit_text(d: usize) -> (text: &'static str)
    requires
        d < 10,
    ensures
        text@ == seq![digit(d as nat)],
{
    proof {
        reveal_strlit("0");
        reveal_strlit("1");
        reveal_strlit("2");
        reveal_strlit("3");
        reveal_strlit("4");
        reveal_strlit("5");
        reveal_strlit("6");
        reveal_strlit("7");
        reveal_strlit("8");
        reveal_strlit("9");
    }
    let text = if d == 0 {
        "0"
    } else if d == 1 {
        "1"
    } else if d == 2 {
        "2"
    } else if d == 3 {
        "3"
    } else if d == 4 {
        "4"
    } else if d == 5 {
        "5"
    } else if d == 6 {
        "6"
    } else if d == 7 {
        "7"
    } else if d == 8 {
        "8"
    } else {
        "9"
    };
    assert(text@ =~= seq![digit(d as nat)]);
    text
}

/// The decimal numeral of `n`.
pub fn decimal_string(n: usize) -> (text: String)
    ensures
        text@ == decimal(n as nat),
    decreases n,
{
    if n < 10 {
        String::from_str(digit_text(n))
    } else {
        let mut text = decimal_string(n / 10);
        text.append(digit_text(n % 10));
        assert(text@ =~= decimal(n as nat));
        text
    }
}

/// `s` with every occurrence of `from` replaced by `to`, the occurrences
/// taken from the left and not overlapping. An empty pattern occurs nowhere.
pub open spec fn replaced(s: Seq<char>, from: Seq<char>, to: Seq<char>) -> Seq<char>
    decreases s.len(),
{
    if from.len() == 0 || s.len() < from.len() {
        s
    } else if occurs_at(s, from, 0) {
        to + replaced(s.skip(from.len() as int), from, to)
    } else {
        seq![s[0]] + replaced(s.skip(1), from, to)
    }
}

/// `text` with every occurrence of `from` replaced by `to`.
pub fn replace_all(text: &str, from: &str, to: &str) -> (out: String)
    ensures
        out@ == replaced(text@, from@, to@),
{
    let chars = chars_of(text);
    let pattern = chars_of(from);
    if pattern.len() == 0 {
        return text.to_owned();
    }
    let mut out = String::new();
    let mut start: usize = 0;
    let mut at: usize = 0;
    assert(text@.skip(0) =~= text@);
    assert(out@ + text@.subrange(0, 0) =~= Seq::<char>::empty());
    assert(Seq::<char>::empty() + text@ =~= text@);
    while at < chars.len()
        invariant
            chars@ == text@,
            pattern@ == from@,
            from@.len() > 0,
            start <= at <= chars.len(),
            replaced(text@, from@, to@) == out@ + replaced_after(
                text@.subrange(start as int, at as int),
                text@.skip(at as int),
                from@,
                to@,
            ),
        decreases chars.len() - at,
    {
        let ghost rest = text@.skip(at as int);
        let ghost kept = text@.subrange(start as int, at as int);
        if matches_at(&chars, &pattern, at) {
            proof {
                assert(rest.subrange(0, from@.len() as int) =~= text@.subrange(
                    at as int,
                    at + from@.len(),
                ));
                assert(occurs_at(rest, from@, 0));
                assert(rest.skip(from@.len() as int) =~= text@.skip(at + from@.len()));
            }
            out.append(text.substring_char(start, at));
            out.append(to);
            at = at + pattern.len();
            start = at;
            proof {
                assert(text@.subrange(start as int, at as int) =~= Seq::<char>::empty());
                lemma_replaced_after_empty(text@.skip(at as int), from@, to@);
            }
        } else {
            proof {
                assert(rest.len() >= from@.len() ==> rest.subrange(0, from@.len() as int)
                    =~= text@.subrange(at as int, at + from@.len()));
                assert(!occurs_at(rest, from@, 0));
                assert(rest.skip(1) =~= text@.skip(at + 1));
                assert(kept.push(rest[0]) =~= text@.subrange(start as int, at + 1));
                lemma_replaced_after_step(kept, rest, from@, to@);
            }
            at += 1;
        }
    }
    proof {
        assert(text@.skip(at as int) =~= Seq::<char>::empty());
    }
    out.append(text.substring_char(start, at));
    out
}

/// What is still to come of a replacement: the characters `kept`, which
/// hold no occurrence that is complete, and then `rest` replaced.
pub open spec fn replaced_after(
    kept: Seq<char>,
    rest: Seq<char>,
    from: Seq<char>,
    to: Seq<char>,
) -> Seq<char> {
    kept + replaced(rest, from, to)
}

proof fn lemma_replaced_after_empty(rest: Seq<char>, from: Seq<char>, to: Seq<char>)
    ensures
        replaced_after(Seq::<char>::empty(), rest, from, to) == replaced(rest, from, to),
{
    assert(Seq::<char>::empty() + replaced(rest, from, to) =~= replaced(rest, from, to));
}

proof fn lemma_replaced_after_step(kept: Seq<char>, rest: Seq<char>, from: Seq<char>, to: Seq<char>)
    requires
        from.len() > 0,
        rest.len() > 0,
        !occurs_at(rest, from, 0),
    ensures
        replaced_after(kept, rest, from, to) == replaced_after(
            kept.push(rest[0]),
            rest.skip(1),
            from,
            to,
        ),
{
    if rest.len() < from.len() {
        lemma_replaced_short(rest.skip(1), from, to);
        assert(kept + rest =~= kept.push(rest[0]) + rest.skip(1));
    } else {
        assert(kept + (seq![rest[0]] + replaced(rest.skip(1), from, to)) =~= kept.push(rest[0])
            + replaced(rest.skip(1), from, to));
    }
}

proof fn lemma_replaced_short(s: Seq<char>, from: Seq<char>, to: Seq<char>)
    requires
        s.len() < from.len(),
    ensures
        replaced(s, from, to) == s,
{
}

} // verus!
