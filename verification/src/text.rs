//! Decimal text of integers, and the reading of it back.
//!
//! Contract ids and error messages are made of plain text and integers in
//! base ten. [`nat_text`] and [`int_text`] say what that text is, the writers
//! produce it, and [`parse_int`] is the grammar under which a piece of text is
//! an integer again.

use core::cmp::Ordering;
use vstd::prelude::*;
use vstd::string::*;

verus! {

/// The character of one decimal digit.
pub open spec fn digit_char(d: int) -> char {
    (48 + d) as char
}

/// The digits of `n` in base ten, most significant first, no leading zero.
pub open spec fn nat_text(n: nat) -> Seq<char>
    decreases n,
{
    if n < 10 {
        seq![digit_char(n as int)]
    } else {
        nat_text(n / 10).push(digit_char((n % 10) as int))
    }
}

/// The text of an integer: its digits, behind a `-` when it is negative.
pub open spec fn int_text(n: int) -> Seq<char> {
    if n < 0 {
        seq!['-'] + nat_text((-n) as nat)
    } else {
        nat_text(n as nat)
    }
}

/// Whether `c` is one of `0` to `9`.
pub open spec fn is_digit(c: char) -> bool {
    '0' <= c && c <= '9'
}

/// The number that a run of digits stands for.
pub open spec fn digits_value(s: Seq<char>) -> nat
    decreases s.len(),
{
    if s.len() == 0 {
        0
    } else {
        digits_value(s.drop_last()) * 10 + ((s.last() as int - 48) as nat)
    }
}

/// Whether `s` is a non-empty run of digits.
pub open spec fn is_digits(s: Seq<char>) -> bool {
    s.len() > 0 && forall|i: int| 0 <= i < s.len() ==> is_digit(#[trigger] s[i])
}

/// The integer that `s` stands for: digits with an optional leading `+`, or,
/// where `signed`, an optional leading `-`.
pub open spec fn parse_int(s: Seq<char>, signed: bool) -> Option<int> {
    if s.len() > 0 && s[0] == '+' {
        if is_digits(s.skip(1)) {
            Some(digits_value(s.skip(1)) as int)
        } else {
            None
        }
    } else if s.len() > 0 && s[0] == '-' {
        if signed && is_digits(s.skip(1)) {
            Some(-(digits_value(s.skip(1)) as int))
        } else {
            None
        }
    } else if is_digits(s) {
        Some(digits_value(s) as int)
    } else {
        None
    }
}

/// The digits of a number are digits, and stand for that number.
pub proof fn lemma_nat_text(n: nat)
    ensures
        is_digits(nat_text(n)),
        digits_value(nat_text(n)) == n,
    decreases n,
{
    if n < 10 {
        let s = nat_text(n);
        assert(s.drop_last() =~= Seq::<char>::empty());
        assert(digits_value(s.drop_last()) == 0);
        assert(s.last() == digit_char(n as int));
    } else {
        lemma_nat_text(n / 10);
        let s = nat_text(n);
        assert(s.drop_last() =~= nat_text(n / 10));
        assert(s.last() == digit_char((n % 10) as int));
        assert forall|i: int| 0 <= i < s.len() implies is_digit(#[trigger] s[i]) by {
            if i < s.len() - 1 {
                assert(s[i] == nat_text(n / 10)[i]);
            }
        }
    }
}

/// Reading the text of an integer gives that integer back.
pub proof fn lemma_parse_int_text(n: int)
    ensures
        parse_int(int_text(n), true) == Some(n),
        n >= 0 ==> parse_int(int_text(n), false) == Some(n),
{
    if n < 0 {
        let s = int_text(n);
        lemma_nat_text((-n) as nat);
        assert(s.skip(1) =~= nat_text((-n) as nat));
        assert(s[0] == '-');
    } else {
        lemma_nat_text(n as nat);
        assert(is_digit(nat_text(n as nat)[0]));
    }
}

/// The text of an integer holds digits and `-` only.
pub proof fn lemma_int_text_chars(n: int)
    ensures
        int_text(n).len() > 0,
        forall|i: int|
            0 <= i < int_text(n).len() ==> is_digit(#[trigger] int_text(n)[i]) || int_text(n)[i]
                == '-',
{
    if n < 0 {
        lemma_nat_text((-n) as nat);
        let s = int_text(n);
        assert forall|i: int| 0 <= i < s.len() implies is_digit(#[trigger] s[i]) || s[i] == '-' by {
            if i > 0 {
                assert(s[i] == nat_text((-n) as nat)[i - 1]);
            }
        }
    } else {
        lemma_nat_text(n as nat);
    }
}

/// The text of one digit.
fn digit_str(d: u8) -> (s: &'static str)
    requires
        d < 10,
    ensures
        s@ == seq![digit_char(d as int)],
{
    proof {
        reveal_strlit("0");
        reveal_strlit("1");
        reveal_strlit("2");
        reveal_strlit("3");
        reveal_strlit("4");
        reveal_strlit("5");
        reveal_strlit("6");
        reveal_strlit("7");
        reveal_strlit("8");
        reveal_strlit("9");
    }
    let s = match d {
        0 => "0",
        1 => "1",
        2 => "2",
        3 => "3",
        4 => "4",
        5 => "5",
        6 => "6",
        7 => "7",
        8 => "8",
        _ => "9",
    };
    assert(s@ =~= seq![digit_char(d as int)]);
    s
}

/// Append the digits of `n`.
pub fn push_nat(out: &mut String, n: u128)
    ensures
        final(out)@ == old(out)@ + nat_text(n as nat),
    decreases n,
{
    if n >= 10 {
        push_nat(out, n / 10);
    }
    let d = digit_str((n % 10) as u8);
    out.append(d);
    assert(out@ =~= old(out)@ + nat_text(n as nat));
}

/// The text of an unsigned integer.
pub fn unsigned_text(n: u128) -> (s: String)
    ensures
        s@ == int_text(n as int),
{
    let mut s = String::new();
    push_nat(&mut s, n);
    assert(s@ =~= nat_text(n as nat));
    s
}

/// The text of a signed integer.
pub fn signed_text(n: i128) -> (s: String)
    requires
        n > i128::MIN,
    ensures
        s@ == int_text(n as int),
{
    if n < 0 {
        proof {
            reveal_strlit("-");
        }
        let mut s = String::from_str("-");
        push_nat(&mut s, (-n) as u128);
        assert(s@ =~= int_text(n as int));
        s
    } else {
        unsigned_text(n as u128)
    }
}

/// The characters of a string, in order.
pub fn chars_of(s: &str) -> (v: Vec<char>)
    ensures
        v@ == s@,
{
    let mut v: Vec<char> = Vec::new();
    let n: usize = s.unicode_len();
    let mut i: usize = 0;
    while i < n
        invariant
            i <= n,
            n == s@.len(),
            v@ == s@.take(i as int),
        decreases n - i,
    {
        v.push(s.get_char(i));
        i = i + 1;
        assert(s@.take(i as int) =~= s@.take(i - 1).push(s@[i - 1]));
    }
    assert(s@.take(n as int) =~= s@);
    v
}

/// The value of the digits `v[from..to]`, or nothing where one of them is no
/// digit or the value exceeds `cap`.
fn parse_digits(v: &Vec<char>, from: usize, to: usize, cap: u128) -> (r: Option<u128>)
    requires
        from <= to <= v.len(),
        cap <= u64::MAX,
    ensures
        r == (if is_digits(v@.subrange(from as int, to as int)) && digits_value(
            v@.subrange(from as int, to as int),
        ) <= cap {
            Some(digits_value(v@.subrange(from as int, to as int)) as u128)
        } else {
            None
        }),
{
    let ghost all = v@.subrange(from as int, to as int);
    if from == to {
        return None;
    }
    let mut acc: u128 = 0;
    let mut i: usize = from;
    assert(all.take(0) =~= Seq::<char>::empty());
    while i < to
        invariant
            from <= i <= to <= v.len(),
            all == v@.subrange(from as int, to as int),
            cap <= u64::MAX,
            acc <= cap,
            acc == digits_value(all.take(i - from)),
            forall|k: int| 0 <= k < i - from ==> is_digit(#[trigger] all[k]),
        decreases to - i,
    {
        let c: char = v[i];
        let ghost k = i - from;
        assert(all[k] == c);
        if !('0' <= c && c <= '9') {
            assert(!is_digits(all));
            return None;
        }
        let d: u128 = (c as u32 - 48) as u128;
        assert(all.take(k + 1).drop_last() =~= all.take(k));
        assert(digits_value(all.take(k + 1)) == digits_value(all.take(k)) * 10 + d);
        acc = acc * 10 + d;
        i = i + 1;
        if acc > cap {
            proof {
                lemma_digits_value_grows(all, k + 1);
            }
            return None;
        }
    }
    assert(all.take((to - from) as int) =~= all);
    Some(acc)
}

/// A prefix of a run of digits never stands for more than the whole run.
proof fn lemma_digits_value_grows(s: Seq<char>, k: int)
    requires
        0 <= k <= s.len(),
    ensures
        is_digits(s) ==> digits_value(s.take(k)) <= digits_value(s),
    decreases s.len() - k,
{
    if k < s.len() {
        lemma_digits_value_grows(s, k + 1);
        assert(s.take(k + 1).drop_last() =~= s.take(k));
    } else {
        assert(s.take(k) =~= s);
    }
}

/// Read `v[from..to]` as an `i64`.
pub fn parse_i64(v: &Vec<char>, from: usize, to: usize) -> (r: Option<i64>)
    requires
        from <= to <= v.len(),
    ensures
        r == (match parse_int(v@.subrange(from as int, to as int), true) {
            Some(n) => if i64::MIN <= n <= i64::MAX {
                Some(n as i64)
            } else {
                None
            },
            None => None,
        }),
{
    let ghost s = v@.subrange(from as int, to as int);
    if from == to {
        return None;
    }
    assert(s[0] == v[from as int]);
    let first: char = v[from];
    if first == '+' {
        assert(s.skip(1) =~= v@.subrange(from + 1, to as int));
        match parse_digits(v, from + 1, to, 9_223_372_036_854_775_807) {
            Some(n) => Some(n as i64),
            None => None,
        }
    } else if first == '-' {
        assert(s.skip(1) =~= v@.subrange(from + 1, to as int));
        match parse_digits(v, from + 1, to, 9_223_372_036_854_775_808) {
            Some(n) => Some((-(n as i128)) as i64),
            None => None,
        }
    } else {
        match parse_digits(v, from, to, 9_223_372_036_854_775_807) {
            Some(n) => Some(n as i64),
            None => None,
        }
    }
}

/// Read `v[from..to]` as a `u64`.
pub fn parse_u64(v: &Vec<char>, from: usize, to: usize) -> (r: Option<u64>)
    requires
        from <= to <= v.len(),
    ensures
        r == (match parse_int(v@.subrange(from as int, to as int), false) {
            Some(n) => if 0 <= n <= u64::MAX {
                Some(n as u64)
            } else {
                None
            },
            None => None,
        }),
{
    let ghost s = v@.subrange(from as int, to as int);
    if from == to {
        return None;
    }
    assert(s[0] == v[from as int]);
    let first: char = v[from];
    if first == '+' {
        assert(s.skip(1) =~= v@.subrange(from + 1, to as int));
        match parse_digits(v, from + 1, to, 18_446_744_073_709_551_615) {
            Some(n) => Some(n as u64),
            None => None,
        }
    } else if first == '-' {
        None
    } else {
        match parse_digits(v, from, to, 18_446_744_073_709_551_615) {
            Some(n) => Some(n as u64),
            None => None,
        }
    }
}

/// The order of two texts, character by character; a text comes before its
/// own extensions.
pub open spec fn text_order(a: Seq<char>, b: Seq<char>) -> Ordering
    decreases a.len(),
{
    if a.len() == 0 {
        if b.len() == 0 {
            Ordering::Equal
        } else {
            Ordering::Less
        }
    } else if b.len() == 0 {
        Ordering::Greater
    } else if a[0] < b[0] {
        Ordering::Less
    } else if b[0] < a[0] {
        Ordering::Greater
    } else {
        text_order(a.skip(1), b.skip(1))
    }
}

/// An order turned round.
pub open spec fn reversed(o: Ordering) -> Ordering {
    match o {
        Ordering::Less => Ordering::Greater,
        Ordering::Equal => Ordering::Equal,
        Ordering::Greater => Ordering::Less,
    }
}

/// The order of texts turned round is the order of the texts turned round,
/// and equal texts are the same text.
pub proof fn lemma_text_order_reversed(a: Seq<char>, b: Seq<char>)
    ensures
        text_order(b, a) == reversed(text_order(a, b)),
        (text_order(a, b) == Ordering::Equal) == (a == b),
    decreases a.len(),
{
    if a.len() > 0 && b.len() > 0 {
        lemma_text_order_reversed(a.skip(1), b.skip(1));
        if a[0] == b[0] && a.skip(1) == b.skip(1) {
            assert(a =~= seq![a[0]] + a.skip(1));
            assert(b =~= seq![b[0]] + b.skip(1));
        }
    } else if a.len() == 0 && b.len() == 0 {
        assert(a =~= b);
    }
}

/// Texts order transitively.
pub proof fn lemma_text_order_transitive(a: Seq<char>, b: Seq<char>, c: Seq<char>)
    requires
        text_order(a, b) == Ordering::Less,
        text_order(b, c) == Ordering::Less,
    ensures
        text_order(a, c) == Ordering::Less,
    decreases a.len(),
{
    if a.len() > 0 && b.len() > 0 && c.len() > 0 && a[0] == b[0] && b[0] == c[0] {
        lemma_text_order_transitive(a.skip(1), b.skip(1), c.skip(1));
    }
}

/// Equal first characters do not decide the order.
proof fn lemma_text_order_prefix(a: Seq<char>, b: Seq<char>, n: int)
    requires
        0 <= n <= a.len(),
        n <= b.len(),
        a.take(n) == b.take(n),
    ensures
        text_order(a, b) == text_order(a.skip(n), b.skip(n)),
    decreases n,
{
    if n == 0 {
        assert(a.skip(0) =~= a);
        assert(b.skip(0) =~= b);
    } else {
        assert(a[0] == a.take(n)[0]);
        assert(b[0] == b.take(n)[0]);
        assert(a.skip(1).take(n - 1) =~= a.take(n).skip(1));
        assert(b.skip(1).take(n - 1) =~= b.take(n).skip(1));
        lemma_text_order_prefix(a.skip(1), b.skip(1), n - 1);
        assert(a.skip(1).skip(n - 1) =~= a.skip(n));
        assert(b.skip(1).skip(n - 1) =~= b.skip(n));
    }
}

/// The number of leading bytes that two ASCII texts share.
fn shared_prefix(a: &str, b: &str) -> (n: usize)
    requires
        a.is_ascii(),
        b.is_ascii(),
    ensures
        n <= a@.len(),
        n <= b@.len(),
        a@.take(n as int) == b@.take(n as int),
        n < a@.len() && n < b@.len() ==> a@[n as int] != b@[n as int],
{
    let x = a.as_bytes();
    let y = b.as_bytes();
    proof {
        broadcast use vstd::string::is_ascii_spec_bytes;

        assert(a.is_ascii());
        assert(b.is_ascii());
        assert(x@ == a.spec_bytes());
        assert(y@ == b.spec_bytes());
    }
    let mut n: usize = 0;
    while n < x.len() && n < y.len() && x[n] == y[n]
        invariant
            n <= x.len(),
            n <= y.len(),
            x@.len() == a@.len(),
            y@.len() == b@.len(),
            forall|i: int| 0 <= i < x@.len() ==> #[trigger] x@[i] == a@[i] as u8,
            forall|i: int| 0 <= i < y@.len() ==> #[trigger] y@[i] == b@[i] as u8,
            vstd::utf8::is_ascii_chars(a@),
            vstd::utf8::is_ascii_chars(b@),
            a@.take(n as int) == b@.take(n as int),
        decreases x.len() - n,
    {
        assert(a@[n as int] == b@[n as int]);
        assert(a@.take(n + 1) =~= a@.take(n as int).push(a@[n as int]));
        assert(b@.take(n + 1) =~= b@.take(n as int).push(b@[n as int]));
        n = n + 1;
    }
    n
}

/// The byte at `n` of an ASCII text, or nothing behind its end.
fn byte_at(s: &str, n: usize) -> (r: Option<u8>)
    requires
        s.is_ascii(),
        n <= s@.len(),
    ensures
        match r {
            Some(c) => n < s@.len() && c == s@[n as int],
            None => n == s@.len(),
        },
{
    let x = s.as_bytes();
    proof {
        broadcast use vstd::string::is_ascii_spec_bytes;

        assert(s.is_ascii());
        assert(x@ == s.spec_bytes());
    }
    if n < x.len() {
        Some(x[n])
    } else {
        None
    }
}

/// Compare two ASCII texts.
pub fn compare_text(a: &str, b: &str) -> (r: Ordering)
    requires
        a.is_ascii(),
        b.is_ascii(),
    ensures
        r == text_order(a@, b@),
{
    let n: usize = shared_prefix(a, b);
    proof {
        let at = n + 0;
        lemma_text_order_prefix(a@, b@, at);
        if at < a@.len() {
            assert(a@.skip(at)[0] == a@[at]);
        }
        if at < b@.len() {
            assert(b@.skip(at)[0] == b@[at]);
        }
    }
    match (byte_at(a, n), byte_at(b, n)) {
        (Some(x), Some(y)) => if x < y {
            Ordering::Less
        } else {
            Ordering::Greater
        },
        (Some(_), None) => Ordering::Greater,
        (None, Some(_)) => Ordering::Less,
        (None, None) => Ordering::Equal,
    }
}

/// The pieces of a text between the separators `sep`; one piece where there
/// is no separator.
pub open spec fn split(s: Seq<char>, sep: char) -> Seq<Seq<char>>
    decreases s.len(),
{
    if s.len() == 0 {
        seq![Seq::<char>::empty()]
    } else {
        let front = split(s.drop_last(), sep);
        if s.last() == sep {
            front.push(Seq::<char>::empty())
        } else {
            front.update(front.len() - 1, front.last().push(s.last()))
        }
    }
}

/// There is always at least one piece.
pub proof fn lemma_split_nonempty(s: Seq<char>, sep: char)
    ensures
        split(s, sep).len() > 0,
    decreases s.len(),
{
    if s.len() > 0 {
        lemma_split_nonempty(s.drop_last(), sep);
    }
}

/// A text without a separator is its only piece.
pub proof fn lemma_split_single(s: Seq<char>, sep: char)
    requires
        !s.contains(sep),
    ensures
        split(s, sep) == seq![s],
    decreases s.len(),
{
    if s.len() > 0 {
        assert(s[s.len() - 1] == s.last());
        assert forall|i: int| 0 <= i < s.drop_last().len() implies s.drop_last()[i] != sep by {
            assert(s[i] == s.drop_last()[i]);
        }
        lemma_split_single(s.drop_last(), sep);
        assert(s.drop_last().push(s.last()) =~= s);
        assert(split(s, sep) =~= seq![s]);
    } else {
        assert(s =~= Seq::<char>::empty());
    }
}

/// A separator and a text without one behind it make one more piece.
pub proof fn lemma_split_push(a: Seq<char>, b: Seq<char>, sep: char)
    requires
        !b.contains(sep),
    ensures
        split(a + seq![sep] + b, sep) == split(a, sep).push(b),
    decreases b.len(),
{
    let s = a + seq![sep] + b;
    if b.len() == 0 {
        assert(s.drop_last() =~= a);
        assert(s.last() == sep);
        assert(b =~= Seq::<char>::empty());
    } else {
        assert(b[b.len() - 1] == b.last());
        assert forall|i: int| 0 <= i < b.drop_last().len() implies b.drop_last()[i] != sep by {
            assert(b[i] == b.drop_last()[i]);
        }
        lemma_split_push(a, b.drop_last(), sep);
        assert(s.drop_last() =~= a + seq![sep] + b.drop_last());
        assert(s.last() == b.last());
        assert(b.drop_last().push(b.last()) =~= b);
        assert(split(s, sep) =~= split(a, sep).push(b));
    }
}

/// Where the piece `k` of a text starts, given the separators' positions.
pub open spec fn piece_start(cuts: Seq<usize>, k: int) -> int {
    if k == 0 {
        0
    } else {
        cuts[k - 1] + 1
    }
}

/// Where the piece `k` of a text of length `len` ends, given the separators'
/// positions.
pub open spec fn piece_end(cuts: Seq<usize>, k: int, len: int) -> int {
    if k == cuts.len() {
        len
    } else {
        cuts[k] as int
    }
}

/// Whether `piece` stands at place `k` in the first `len` characters of `s`,
/// which are cut at the separators `cuts`.
pub open spec fn stands_at(
    s: Seq<char>,
    cuts: Seq<usize>,
    piece: Seq<char>,
    len: int,
    k: int,
) -> bool {
    &&& 0 <= piece_start(cuts, k)
    &&& piece_start(cuts, k) <= piece_end(cuts, k, len)
    &&& piece_end(cuts, k, len) <= len
    &&& piece == s.subrange(piece_start(cuts, k), piece_end(cuts, k, len))
}

/// Whether `pieces` are what stands in the first `len` characters of `s`
/// before, between and behind the separators at `cuts`.
pub open spec fn cut_into(
    s: Seq<char>,
    cuts: Seq<usize>,
    pieces: Seq<Seq<char>>,
    len: int,
) -> bool {
    &&& pieces.len() == cuts.len() + 1
    &&& forall|k: int|
        0 <= k < pieces.len() ==> #[trigger] stands_at(s, cuts, pieces[k], len, k)
}

/// The positions of the separators, between which the pieces stand.
pub fn cut_positions(v: &Vec<char>, sep: char) -> (cuts: Vec<usize>)
    ensures
        cut_into(v@, cuts@, split(v@, sep), v@.len() as int),
{
    let mut cuts: Vec<usize> = Vec::new();
    let mut i: usize = 0;
    assert(v@.take(0) =~= Seq::<char>::empty());
    assert(v@.subrange(0, 0) =~= Seq::<char>::empty());
    while i < v.len()
        invariant
            i <= v.len(),
            cut_into(v@, cuts@, split(v@.take(i as int), sep), i as int),
        decreases v.len() - i,
    {
        let ghost before = split(v@.take(i as int), sep);
        let ghost old_cuts = cuts@;
        let ghost next = v@.take(i + 1);
        assert(next.drop_last() =~= v@.take(i as int));
        assert(next.last() == v@[i as int]);
        if v[i] == sep {
            cuts.push(i);
        }
        proof {
            let after = split(next, sep);
            assert(after.len() == cuts@.len() + 1);
            assert forall|k: int| 0 <= k < after.len() implies #[trigger] stands_at(
                v@,
                cuts@,
                after[k],
                i + 1,
                k,
            ) by {
                if k <= old_cuts.len() {
                    assert(stands_at(v@, old_cuts, before[k], i as int, k));
                }
                if k < old_cuts.len() {
                    assert(before[k] == after[k]);
                    assert(piece_start(cuts@, k) == piece_start(old_cuts, k));
                    assert(piece_end(cuts@, k, i + 1) == piece_end(old_cuts, k, i as int));
                } else if k == old_cuts.len() {
                    assert(before[k] == v@.subrange(piece_start(old_cuts, k), i as int));
                    assert(piece_start(cuts@, k) == piece_start(old_cuts, k));
                    if v@[i as int] != sep {
                        assert(after[k] =~= v@.subrange(piece_start(cuts@, k), i + 1));
                    } else {
                        assert(after[k] == before[k]);
                    }
                } else {
                    assert(after[k] =~= Seq::<char>::empty());
                    assert(v@.subrange(i + 1, i + 1) =~= Seq::<char>::empty());
                }
            }
        }
        i = i + 1;
    }
    assert(v@.take(v@.len() as int) =~= v@);
    cuts
}

/// Put a text in quotes by the `Debug` of std's `str`, which escapes what does
/// not print. Nothing is claimed of the text: what prints follows tables that
/// grow with each release of std.
#[verifier::external_body]
pub(crate) fn quoted(text: &str) -> (r: String) {
    format!("{text:?}")
}

/// Texts are told apart by their first character that differs, and a text that
/// another begins with comes before it.
pub proof fn law_texts_order_by_what_differs_first(
    front: Seq<char>,
    a: Seq<char>,
    b: Seq<char>,
)
    ensures
        a.len() > 0 && b.len() > 0 && a[0] < b[0] ==> text_order(front + a, front + b)
            == Ordering::Less,
        b.len() > 0 ==> text_order(front, front + b) == Ordering::Less,
        text_order(front + a, front + b) == text_order(a, b),
    decreases front.len(),
{
    if front.len() == 0 {
        assert(front + a =~= a);
        assert(front + b =~= b);
        assert(front =~= Seq::<char>::empty());
    } else {
        let rest = front.skip(1);
        law_texts_order_by_what_differs_first(rest, a, b);
        assert((front + a).skip(1) =~= rest + a);
        assert((front + b).skip(1) =~= rest + b);
    }
}

} // verus!
