//! What a process does to itself before it runs the command.
use vstd::prelude::*;

use crate::text::{chars_of, decimal, number};

verus! {

/// The error numbers that decisions depend on.
#[derive(Debug, Clone, Copy, PartialEq, Eq)]
pub struct ErrnoTable {
    pub eperm: i32,
    pub ebadf: i32,
    pub einval: i32,
    pub enosys: i32,
    pub eopnotsupp: i32,
}

/// How many descriptors are closed at most where the limit is larger or none is set.
pub const DESCRIPTOR_CAP: u64 = 1_048_576;

/// The descriptors that are not standard streams.
pub open spec fn extra_descriptors(fds: Seq<i32>) -> Seq<i32>
    decreases fds.len(),
{
    if fds.len() == 0 {
        Seq::empty()
    } else {
        let front = extra_descriptors(fds.drop_last());
        if fds.last() <= 2 {
            front
        } else {
            front.push(fds.last())
        }
    }
}

/// The descriptors of a list that are closed, in order: all but the standard streams.
pub fn descriptors_to_close(fds: &Vec<i32>) -> (r: Vec<i32>)
    ensures
        r@ == extra_descriptors(fds@),
{
    let mut r: Vec<i32> = Vec::new();
    for i in 0..fds.len()
        invariant
            r@ == extra_descriptors(fds@.take(i as int)),
    {
        assert(fds@.take(i + 1).drop_last() =~= fds@.take(i as int));
        if fds[i] > 2 {
            r.push(fds[i]);
        }
    }
    assert(fds@.take(fds.len() as int) =~= fds@);
    r
}

/// The end of the range of descriptors that can be open: the limit, but at most the cap.
pub open spec fn descriptor_end(limit: Option<u64>) -> u64 {
    match limit {
        None => DESCRIPTOR_CAP,
        Some(n) => if n < DESCRIPTOR_CAP {
            n
        } else {
            DESCRIPTOR_CAP
        },
    }
}

/// All descriptors that can be open behind the standard streams, where the open ones cannot be
/// listed. `None` stands for no limit.
pub fn descriptor_range(limit: Option<u64>) -> (r: Vec<i32>)
    ensures
        r.len() == if descriptor_end(limit) > 3 {
            descriptor_end(limit) - 3
        } else {
            0
        },
        forall|i: int| 0 <= i < r.len() ==> #[trigger] r@[i] == i + 3,
{
    let end: u64 = match limit {
        None => DESCRIPTOR_CAP,
        Some(n) => if n < DESCRIPTOR_CAP {
            n
        } else {
            DESCRIPTOR_CAP
        },
    };
    let mut r: Vec<i32> = Vec::new();
    let mut next: i32 = 3;
    while (next as u64) < end
        invariant
            3 <= next,
            end == descriptor_end(limit),
            end <= DESCRIPTOR_CAP,
            next <= end || next == 3,
            r.len() == next - 3,
            forall|i: int| 0 <= i < r.len() ==> #[trigger] r@[i] == i + 3,
        decreases end - next,
    {
        r.push(next);
        next = next + 1;
    }
    r
}

/// A decimal digit.
pub open spec fn is_digit(c: char) -> bool {
    '0' <= c && c <= '9'
}

/// The value of some decimal digits.
pub open spec fn digits_value(s: Seq<char>) -> int
    decreases s.len(),
{
    if s.len() == 0 {
        0
    } else {
        digits_value(s.drop_last()) * 10 + (s.last() as int - 48)
    }
}

/// A text that starts with a sign.
pub open spec fn has_sign(s: Seq<char>) -> bool {
    s.len() > 0 && (s[0] == '+' || s[0] == '-')
}

/// What follows the sign of a text.
pub open spec fn after_sign(s: Seq<char>) -> Seq<char> {
    if has_sign(s) {
        s.subrange(1, s.len() as int)
    } else {
        s
    }
}

/// A text of decimal digits.
pub open spec fn all_digits(s: Seq<char>) -> bool {
    forall|i: int| 0 <= i < s.len() ==> is_digit(#[trigger] s[i])
}

/// The number that a text writes: an optional sign and at least one digit.
pub open spec fn parsed_number(s: Seq<char>) -> Option<int> {
    if after_sign(s).len() == 0 || !all_digits(after_sign(s)) {
        None
    } else if s[0] == '-' {
        Some(-digits_value(after_sign(s)))
    } else {
        Some(digits_value(after_sign(s)))
    }
}

/// The descriptor that an entry's name writes, where it writes a number of 32 bits.
pub open spec fn descriptor_named(name: Seq<char>) -> Option<i32> {
    match parsed_number(name) {
        Some(n) => if i32::MIN <= n <= i32::MAX {
            Some(n as i32)
        } else {
            None
        },
        None => None,
    }
}

/// Leaving digits off at the end makes no number larger.
pub proof fn lemma_digits_grow(s: Seq<char>, n: int)
    requires
        0 <= n <= s.len(),
        all_digits(s),
    ensures
        0 <= digits_value(s.take(n)) <= digits_value(s),
    decreases s.len(),
{
    if n < s.len() {
        assert(s.drop_last().take(n) =~= s.take(n));
        assert(is_digit(s[s.len() - 1]));
        assert forall|i: int| 0 <= i < s.drop_last().len() implies is_digit(
            #[trigger] s.drop_last()[i],
        ) by {
            assert(is_digit(s[i]));
        }
        lemma_digits_grow(s.drop_last(), n);
    } else {
        assert(s.take(n) =~= s);
        if s.len() > 0 {
            assert(is_digit(s[s.len() - 1]));
            assert forall|i: int| 0 <= i < s.drop_last().len() implies is_digit(
                #[trigger] s.drop_last()[i],
            ) by {
                assert(is_digit(s[i]));
            }
            lemma_digits_grow(s.drop_last(), n - 1);
        }
    }
}

/// The descriptor that the name of an entry stands for.
pub fn descriptor_of_name(name: &str) -> (r: Option<i32>)
    ensures
        r == descriptor_named(name@),
{
    let s = chars_of(name);
    let signed = s.len() > 0 && (s[0] == '+' || s[0] == '-');
    let from: usize = if signed {
        1
    } else {
        0
    };
    let ghost digits = after_sign(name@);
    let len: usize = s.len();
    if len == from {
        return None;
    }
    for i in from..len
        invariant
            s@ == name@,
            len == s.len(),
            digits == after_sign(name@),
            from + digits.len() == len,
            forall|k: int| 0 <= k < digits.len() ==> #[trigger] digits[k] == s@[k + from],
            forall|k: int| 0 <= k < i - from ==> is_digit(#[trigger] digits[k]),
    {
        let c = s[i];
        assert(digits[i - from] == c);
        if !('0' <= c && c <= '9') {
            assert(!is_digit(digits[i - from]));
            return None;
        }
    }
    assert(all_digits(digits));
    let mut value: i64 = 0;
    assert(digits.take(0).len() == 0);
    for i in from..len
        invariant
            s@ == name@,
            len == s.len(),
            digits == after_sign(name@),
            from + digits.len() == len,
            len > from,
            all_digits(digits),
            forall|k: int| 0 <= k < digits.len() ==> #[trigger] digits[k] == s@[k + from],
            value == digits_value(digits.take(i - from)),
            0 <= value <= 2_147_483_648,
    {
        let c = s[i];
        proof {
            assert(digits[i - from] == c);
            assert(is_digit(digits[i - from]));
            assert(digits.take(i - from + 1).drop_last() =~= digits.take(i - from));
            assert(digits.take(i - from + 1).last() == c);
            lemma_digits_grow(digits, i - from + 1);
        }
        value = value * 10 + (c as u32 as i64 - 48);
        if value > 2_147_483_648 {
            return None;
        }
    }
    assert(digits.take(digits.len() as int) =~= digits);
    if s[0] == '-' {
        Some((-value) as i32)
    } else if value <= 2_147_483_647 {
        Some(value as i32)
    } else {
        None
    }
}

/// Whether closing a descriptor may count as done: it was closed, or it was not open.
pub fn close_is_settled(raw_os_error: Option<i32>, errno: ErrnoTable) -> (r: bool)
    ensures
        r == (raw_os_error == Some(errno.ebadf)),
{
    match raw_os_error {
        Some(code) => code == errno.ebadf,
        None => false,
    }
}

/// Every descriptor above the three standard ones is closed, in its order, and none of those is.
pub proof fn all_but_the_standard_streams_are_closed(a: Seq<i32>, b: Seq<i32>, fd: i32)
    ensures
        extra_descriptors(a + b) == extra_descriptors(a) + extra_descriptors(b),
        fd > 2 ==> extra_descriptors(seq![fd]) == seq![fd],
        fd <= 2 ==> extra_descriptors(seq![fd]).len() == 0,
    decreases b.len(),
{
    let one = seq![fd];
    assert(one.drop_last() =~= Seq::empty());
    assert(extra_descriptors(one.drop_last()) =~= Seq::empty());
    assert(fd > 2 ==> extra_descriptors(one) =~= one);
    if b.len() == 0 {
        assert(a + b =~= a);
        assert(extra_descriptors(a) + extra_descriptors(b) =~= extra_descriptors(a));
    } else {
        let f = b.drop_last();
        all_but_the_standard_streams_are_closed(a, f, fd);
        assert((a + b).drop_last() =~= a + f);
        assert((a + b).last() == b.last());
        assert(extra_descriptors(a + b) =~= extra_descriptors(a) + extra_descriptors(b));
    }
}

/// The range of descriptors ends at the smaller of the limit and the cap.
pub proof fn the_smaller_limit_counts(limit: u64)
    ensures
        descriptor_end(None) == 1024 * 1024,
        descriptor_end(Some(limit)) <= limit,
        descriptor_end(Some(limit)) <= 1024 * 1024,
        descriptor_end(Some(limit)) == limit || descriptor_end(Some(limit)) == 1024 * 1024,
{
}

proof fn lemma_digits_of(n: nat)
    ensures
        decimal(n).len() > 0,
        all_digits(decimal(n)),
        digits_value(decimal(n)) == n,
        is_digit(decimal(n)[0]),
    decreases n,
{
    let d = decimal(n);
    if n < 10 {
        assert(d.drop_last() =~= Seq::empty());
        assert(digits_value(d.drop_last()) == 0);
    } else {
        lemma_digits_of(n / 10);
        assert(d.drop_last() =~= decimal(n / 10));
        assert(d[0] == decimal(n / 10)[0]);
        assert forall|i: int| 0 <= i < d.len() implies is_digit(#[trigger] d[i]) by {
            if i < d.len() - 1 {
                assert(d[i] == decimal(n / 10)[i]);
            }
        }
    }
}

/// A name that writes a number in digits names the descriptor of that number, with or without a
/// sign, as far as it fits; a name with anything but digits behind its sign names none.
pub proof fn names_are_read_as_numbers(n: nat, name: Seq<char>, at: int)
    ensures
        n <= i32::MAX ==> descriptor_named(decimal(n)) == Some(n as i32),
        n <= i32::MAX ==> descriptor_named(seq!['-'] + decimal(n)) == Some((-n) as i32),
        n <= i32::MAX ==> descriptor_named(seq!['+'] + decimal(n)) == Some(n as i32),
        n > i32::MAX ==> descriptor_named(decimal(n)) is None,
        name.len() == 0 ==> descriptor_named(name) is None,
        1 <= at < name.len() && !('0' <= name[at] && name[at] <= '9') ==> descriptor_named(
            name,
        ) is None,
{
    lemma_digits_of(n);
    let s = seq!['-'] + decimal(n);
    assert(s.subrange(1, s.len() as int) =~= decimal(n));
    let t = seq!['+'] + decimal(n);
    assert(t.subrange(1, t.len() as int) =~= decimal(n));
    if 1 <= at < name.len() && !('0' <= name[at] && name[at] <= '9') {
        let t = after_sign(name);
        if has_sign(name) {
            assert(t[at - 1] == name[at]);
        } else {
            assert(t[at] == name[at]);
        }
    }
}

} // verus!
