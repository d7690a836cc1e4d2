//! Decimal numbers and delimited fields over character sequences.

use vstd::prelude::*;
use vstd::string::*;

verus! {

/// The value of a decimal digit, or `None` for any other character.
pub open spec fn digit_value(c: char) -> Option<nat> {
    if c == '0' {
        Some(0)
    } else if c == '1' {
        Some(1)
    } else if c == '2' {
        Some(2)
    } else if c == '3' {
        Some(3)
    } else if c == '4' {
        Some(4)
    } else if c == '5' {
        Some(5)
    } else if c == '6' {
        Some(6)
    } else if c == '7' {
        Some(7)
    } else if c == '8' {
        Some(8)
    } else if c == '9' {
        Some(9)
    } else {
        None
    }
}

/// The character that writes the digit `d`.
pub open spec fn digit_char(d: nat) -> char {
    if d == 0 {
        '0'
    } else if d == 1 {
        '1'
    } else if d == 2 {
        '2'
    } else if d == 3 {
        '3'
    } else if d == 4 {
        '4'
    } else if d == 5 {
        '5'
    } else if d == 6 {
        '6'
    } else if d == 7 {
        '7'
    } else if d == 8 {
        '8'
    } else {
        '9'
    }
}

/// Every character of `s` is a decimal digit.
pub open spec fn all_digits(s: Seq<char>) -> bool {
    forall|i: int| 0 <= i < s.len() ==> (#[trigger] digit_value(s[i])) is Some
}

/// The number that a sequence of digits writes, most significant digit first.
/// A character that is no digit counts as zero.
pub open spec fn digits_value(s: Seq<char>) -> nat
    decreases s.len(),
{
    if s.len() == 0 {
        0
    } else {
        let d = match digit_value(s.last()) {
            Some(d) => d,
            None => 0,
        };
        digits_value(s.drop_last()) * 10 + d
    }
}

/// The digits of a numeric field once an optional leading `+` is removed.
pub open spec fn unsigned_body(s: Seq<char>) -> Seq<char> {
    if s.len() > 0 && s[0] == '+' {
        s.subrange(1, s.len() as int)
    } else {
        s
    }
}

/// What a numeric field denotes: an optional `+`, then one or more decimal
/// digits whose value fits in `usize`. Anything else denotes nothing.
pub open spec fn parse_usize_spec(s: Seq<char>) -> Option<usize> {
    let body = unsigned_body(s);
    if body.len() > 0 && all_digits(body) && digits_value(body) <= usize::MAX {
        Some(digits_value(body) as usize)
    } else {
        None
    }
}

/// The shortest decimal writing of `n`.
pub open spec fn decimal(n: nat) -> Seq<char>
    decreases n,
{
    if n < 10 {
        seq![digit_char(n)]
    } else {
        decimal(n / 10).push(digit_char(n % 10))
    }
}

/// Dropping trailing characters never increases the value of a digit string.
pub proof fn lemma_digits_value_prefix(s: Seq<char>, k: int)
    requires
        0 <= k <= s.len(),
    ensures
        digits_value(s.take(k)) <= digits_value(s),
    decreases s.len() - k,
{
    if k == s.len() {
        assert(s.take(k) =~= s);
    } else {
        lemma_digits_value_prefix(s, k + 1);
        assert(s.take(k + 1).drop_last() =~= s.take(k));
    }
}

/// The value of `c` as a decimal digit.
fn digit_of(c: char) -> (d: Option<usize>)
    ensures
        match d {
            Some(v) => digit_value(c) == Some(v as nat),
            None => digit_value(c) is None,
        },
{
    match c {
        '0' => Some(0),
        '1' => Some(1),
        '2' => Some(2),
        '3' => Some(3),
        '4' => Some(4),
        '5' => Some(5),
        '6' => Some(6),
        '7' => Some(7),
        '8' => Some(8),
        '9' => Some(9),
        _ => None,
    }
}

/// The characters of `s`, in order.
pub fn chars_of(s: &str) -> (v: Vec<char>)
    ensures
        v@ == s@,
{
    let mut v: Vec<char> = Vec::new();
    for c in it: s.chars()
        invariant
            v@ == s@.take(it.index() as int),
            it.seq() == s@,
    {
        v.push(c);
    }
    v
}

/// Reads a numeric field.
pub fn parse_usize(s: &str) -> (r: Option<usize>)
    ensures
        r == parse_usize_spec(s@),
{
    let cs = chars_of(s);
    let n: usize = cs.len();
    let start: usize = if n > 0 && cs[0] == '+' {
        1
    } else {
        0
    };
    if start == n {
        return None;
    }
    let ghost body = unsigned_body(s@);
    assert(body =~= cs@.subrange(start as int, n as int));
    let mut acc: usize = 0;
    let mut i: usize = start;
    while i < n
        invariant
            start <= i <= n,
            n == cs@.len(),
            body == unsigned_body(s@),
            body == cs@.subrange(start as int, n as int),
            all_digits(body.take(i - start)),
            acc == digits_value(body.take(i - start)),
        decreases n - i,
    {
        let ghost before = body.take(i - start);
        let ghost after = body.take(i - start + 1);
        assert(after.drop_last() =~= before);
        assert(after.last() == cs@[i as int]);
        match digit_of(cs[i]) {
            None => {
                assert(digit_value(body[i - start]) is None);
                assert(!all_digits(body));
                return None;
            },
            Some(d) => {
                if acc > (usize::MAX - d) / 10 {
                    proof {
                        assert(digits_value(after) == acc * 10 + d);
                        lemma_digits_value_prefix(body, i - start + 1);
                    }
                    return None;
                }
                acc = acc * 10 + d;
                assert forall|j: int| 0 <= j < after.len() implies (#[trigger] digit_value(
                    after[j],
                )) is Some by {
                    if j < before.len() {
                        assert(after[j] == before[j]);
                    }
                }
            },
        }
        i += 1;
    }
    assert(body.take(n - start) =~= body);
    Some(acc)
}

/// The digit `d` as a text of one character.
fn digit_str(d: usize) -> (r: &'static str)
    requires
        d < 10,
    ensures
        r@ == seq![digit_char(d as nat)],
{
    proof {
        reveal_strlit("0");
        reveal_strlit("1");
        reveal_strlit("2");
        reveal_strlit("3");
        reveal_strlit("4");
        reveal_strlit("5");
        reveal_strlit("6");
        reveal_strlit("7");
        reveal_strlit("8");
        reveal_strlit("9");
    }
    let r = match d {
        0 => "0",
        1 => "1",
        2 => "2",
        3 => "3",
        4 => "4",
        5 => "5",
        6 => "6",
        7 => "7",
        8 => "8",
        _ => "9",
    };
    assert(r@ =~= seq![digit_char(d as nat)]);
    r
}

/// Writes `n` in decimal.
pub fn usize_to_string(n: usize) -> (s: String)
    ensures
        s@ == decimal(n as nat),
    decreases n,
{
    if n < 10 {
        String::from_str(digit_str(n))
    } else {
        let mut s = usize_to_string(n / 10);
        let d = digit_str(n % 10);
        s.append(d);
        assert(s@ =~= decimal((n / 10) as nat).push(digit_char((n % 10) as nat)));
        s
    }
}

/// A decimal writing is never empty, holds digits only and has the value it
/// was written from.
pub proof fn lemma_decimal_digits(n: nat)
    ensures
        decimal(n).len() > 0,
        all_digits(decimal(n)),
        digits_value(decimal(n)) == n,
    decreases n,
{
    if n < 10 {
        assert(decimal(n).drop_last() =~= Seq::<char>::empty());
        assert(digits_value(decimal(n).drop_last()) == 0);
    } else {
        lemma_decimal_digits(n / 10);
        let head = decimal(n / 10);
        let all = decimal(n);
        assert(all.drop_last() =~= head);
        assert forall|i: int| 0 <= i < all.len() implies (#[trigger] digit_value(all[i])) is Some by {
            if i < head.len() {
                assert(all[i] == head[i]);
            }
        }
    }
}

/// Reading back what `usize_to_string` wrote gives the number again.
pub proof fn law_decimal_round_trip(n: usize)
    ensures
        parse_usize_spec(decimal(n as nat)) == Some(n),
{
    lemma_decimal_digits(n as nat);
    let s = decimal(n as nat);
    assert(digit_value(s[0]) is Some);
    assert(unsigned_body(s) == s);
}

/// The views of a sequence of strings.
pub open spec fn texts(v: Seq<String>) -> Seq<Seq<char>> {
    Seq::new(v.len(), |i: int| v[i]@)
}

/// The position of the first `x` in `s`, or the length of `s` if it holds
/// none.
pub open spec fn first_index<T>(s: Seq<T>, x: T) -> int
    decreases s.len(),
{
    if s.len() == 0 || s[0] == x {
        0
    } else {
        1 + first_index(s.drop_first(), x)
    }
}

/// `s` with its first `x` taken out; `s` itself if it holds none.
pub open spec fn without<T>(s: Seq<T>, x: T) -> Seq<T> {
    if 0 <= first_index(s, x) < s.len() {
        s.remove(first_index(s, x))
    } else {
        s
    }
}

/// The fields of `s` between occurrences of `sep`. A text without `sep` is one
/// field, the empty text included, and a trailing `sep` ends in an empty field.
pub open spec fn fields(s: Seq<char>, sep: char) -> Seq<Seq<char>>
    decreases s.len(),
{
    let k = first_index(s, sep);
    if 0 <= k < s.len() {
        seq![s.take(k)] + fields(s.skip(k + 1), sep)
    } else {
        seq![s]
    }
}

/// `first_index` is the position of the leftmost occurrence.
pub proof fn lemma_first_index<T>(s: Seq<T>, x: T, k: int)
    requires
        0 <= k <= s.len(),
        forall|j: int| 0 <= j < k ==> s[j] != x,
        k < s.len() ==> s[k] == x,
    ensures
        first_index(s, x) == k,
    decreases s.len(),
{
    if s.len() == 0 || s[0] == x {
    } else {
        let t = s.drop_first();
        assert forall|j: int| 0 <= j < k - 1 implies t[j] != x by {
            assert(t[j] == s[j + 1]);
        }
        lemma_first_index(t, x, k - 1);
    }
}

/// `first_index` lies within `s` exactly when `s` holds `x`, and then points
/// at its leftmost occurrence.
pub proof fn lemma_first_index_found<T>(s: Seq<T>, x: T)
    ensures
        0 <= first_index(s, x) <= s.len(),
        first_index(s, x) < s.len() <==> s.contains(x),
        first_index(s, x) < s.len() ==> s[first_index(s, x)] == x,
        forall|j: int| 0 <= j < first_index(s, x) ==> s[j] != x,
    decreases s.len(),
{
    if s.len() == 0 {
    } else if s[0] == x {
    } else {
        let t = s.drop_first();
        lemma_first_index_found(t, x);
        let k = first_index(t, x);
        if k < t.len() {
            assert(s[k + 1] == t[k]);
        }
        if s.contains(x) {
            let i = choose|i: int| 0 <= i < s.len() && s[i] == x;
            assert(t[i - 1] == x);
        }
        assert forall|j: int| 0 <= j < first_index(s, x) implies s[j] != x by {
            if j > 0 {
                assert(t[j - 1] == s[j]);
            }
        }
    }
}

/// Taking the first `x` out of a sequence without repetitions leaves one
/// without repetitions, which no longer holds `x` and keeps everything else.
pub proof fn lemma_without<T>(s: Seq<T>, x: T)
    requires
        s.no_duplicates(),
    ensures
        without(s, x).no_duplicates(),
        !without(s, x).contains(x),
        forall|y: T| y != x ==> (without(s, x).contains(y) <==> s.contains(y)),
        s.contains(x) ==> without(s, x).len() == s.len() - 1,
        !s.contains(x) ==> without(s, x) == s,
{
    lemma_first_index_found(s, x);
    let k = first_index(s, x);
    let w = without(s, x);
    if k < s.len() {
        assert forall|i: int, j: int| 0 <= i < w.len() && 0 <= j < w.len() && i != j implies w[i]
            != w[j] by {
            let si = if i < k { i } else { i + 1 };
            let sj = if j < k { j } else { j + 1 };
            assert(w[i] == s[si] && w[j] == s[sj]);
        }
        if w.contains(x) {
            let i = choose|i: int| 0 <= i < w.len() && w[i] == x;
            let si = if i < k { i } else { i + 1 };
            assert(w[i] == s[si]);
        }
        assert forall|y: T| y != x implies (w.contains(y) <==> s.contains(y)) by {
            if w.contains(y) {
                let i = choose|i: int| 0 <= i < w.len() && w[i] == y;
                let si = if i < k { i } else { i + 1 };
                assert(w[i] == s[si]);
            }
            if s.contains(y) {
                let i = choose|i: int| 0 <= i < s.len() && s[i] == y;
                let wi = if i < k { i } else { i - 1 };
                assert(w[wi] == s[i]);
            }
        }
    }
}

/// Splits `s` at every `sep`.
pub fn split_fields(s: &str, sep: char) -> (out: Vec<String>)
    ensures
        texts(out@) == fields(s@, sep),
        out@.len() >= 1,
{
    let cs = chars_of(s);
    let n: usize = cs.len();
    let mut out: Vec<String> = Vec::new();
    let mut start: usize = 0;
    let mut i: usize = 0;
    assert(s@.skip(0) =~= s@);
    assert(texts(out@) + fields(s@, sep) =~= fields(s@, sep));
    while i < n
        invariant
            0 <= start <= i <= n,
            n == s@.len(),
            cs@ == s@,
            forall|j: int| start <= j < i ==> s@[j] != sep,
            texts(out@) + fields(s@.skip(start as int), sep) == fields(s@, sep),
        decreases n - i,
    {
        if cs[i] == sep {
            let piece = String::from_str(s.substring_char(start, i));
            proof {
                let rest = s@.skip(start as int);
                lemma_first_index(rest, sep, i - start);
                assert(rest.take(i - start) =~= s@.subrange(start as int, i as int));
                assert(rest.skip(i - start + 1) =~= s@.skip(i + 1));
                assert(texts(out@.push(piece)) =~= texts(out@).push(piece@));
                assert(texts(out@).push(piece@) + fields(s@.skip(i + 1), sep) =~= texts(out@) + (
                seq![piece@] + fields(s@.skip(i + 1), sep)));
            }
            out.push(piece);
            start = i + 1;
        }
        i += 1;
    }
    let piece = String::from_str(s.substring_char(start, n));
    proof {
        let rest = s@.skip(start as int);
        lemma_first_index(rest, sep, n - start);
        assert(rest =~= s@.subrange(start as int, n as int));
        assert(texts(out@.push(piece)) =~= texts(out@).push(piece@));
        assert(texts(out@).push(piece@) =~= texts(out@) + seq![piece@]);
    }
    out.push(piece);
    out
}

/// Whether two texts hold the same characters.
pub fn same_text(a: &str, b: &str) -> (r: bool)
    ensures
        r == (a@ == b@),
{
    let x = String::from_str(a);
    let y = String::from_str(b);
    x == y
}

/// A text without `sep` is a single field.
pub proof fn lemma_fields_single(s: Seq<char>, sep: char)
    requires
        !s.contains(sep),
    ensures
        fields(s, sep) == seq![s],
{
    assert forall|j: int| 0 <= j < s.len() implies s[j] != sep by {
        assert(s.contains(s[j]));
    }
    lemma_first_index(s, sep, s.len() as int);
}

/// A text that starts with a field free of `sep`, followed by `sep`, splits
/// into that field and the fields of what follows.
pub proof fn lemma_fields_cons(head: Seq<char>, rest: Seq<char>, sep: char)
    requires
        !head.contains(sep),
    ensures
        fields(head + seq![sep] + rest, sep) == seq![head] + fields(rest, sep),
{
    let s = head + seq![sep] + rest;
    let k = head.len() as int;
    assert forall|j: int| 0 <= j < k implies s[j] != sep by {
        assert(head.contains(head[j]));
        assert(s[j] == head[j]);
    }
    assert(s[k] == sep);
    lemma_first_index(s, sep, k);
    assert(s.take(k) =~= head);
    assert(s.skip(k + 1) =~= rest);
}

/// A decimal writing holds no character that is no digit.
pub proof fn lemma_decimal_lacks(n: nat, c: char)
    requires
        digit_value(c) is None,
    ensures
        !decimal(n).contains(c),
{
    lemma_decimal_digits(n);
    if decimal(n).contains(c) {
        let i = choose|i: int| 0 <= i < decimal(n).len() && decimal(n)[i] == c;
        assert(digit_value(decimal(n)[i]) is Some);
    }
}

} // verus!
