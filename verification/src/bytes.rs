//! Sequences of bytes: copies, comparison, ASCII case and the order of the dictionary.
use vstd::prelude::*;

verus! {

/// The bytes with every ASCII capital made small.
pub open spec fn lower_bytes(s: Seq<u8>) -> Seq<u8> {
    Seq::new(s.len(), |i: int| lower_byte(s[i]))
}

/// An ASCII capital becomes its small letter; every other byte stays.
pub open spec fn lower_byte(b: u8) -> u8 {
    if 65 <= b <= 90 {
        (b + 32) as u8
    } else {
        b
    }
}

/// A small ASCII letter becomes its capital; every other byte stays.
pub open spec fn upper_byte(b: u8) -> u8 {
    if 97 <= b <= 122 {
        (b - 32) as u8
    } else {
        b
    }
}

/// Whether a byte is an ASCII letter.
pub open spec fn is_letter(b: u8) -> bool {
    65 <= b <= 90 || 97 <= b <= 122
}

/// The dictionary order: at the first place where they differ the smaller number decides, and a
/// sequence comes before its extensions.
pub open spec fn dictionary_less(a: Seq<u32>, b: Seq<u32>) -> bool
    decreases a.len(),
{
    if b.len() == 0 {
        false
    } else if a.len() == 0 {
        true
    } else if a[0] != b[0] {
        a[0] < b[0]
    } else {
        dictionary_less(a.subrange(1, a.len() as int), b.subrange(1, b.len() as int))
    }
}

/// A copy of some bytes.
pub fn copy_bytes(v: &[u8]) -> (r: Vec<u8>)
    ensures
        r@ == v@,
{
    copy_range(v, 0, v.len())
}

/// A copy of the bytes from one place up to another.
pub fn copy_range(v: &[u8], from: usize, to: usize) -> (r: Vec<u8>)
    requires
        from <= to <= v.len(),
    ensures
        r@ == v@.subrange(from as int, to as int),
{
    let mut r: Vec<u8> = Vec::new();
    for i in from..to
        invariant
            from <= to <= v.len(),
            r@ =~= v@.subrange(from as int, i as int),
    {
        r.push(v[i]);
    }
    r
}

/// Appends some bytes to others.
pub fn push_bytes(r: &mut Vec<u8>, v: &[u8])
    ensures
        final(r)@ == old(r)@ + v@,
{
    for i in 0..v.len()
        invariant
            r@ =~= old(r)@ + v@.take(i as int),
    {
        r.push(v[i]);
    }
    assert(v@.take(v.len() as int) =~= v@);
}

/// Whether two runs of bytes are the same.
pub fn same_bytes(a: &[u8], b: &[u8]) -> (r: bool)
    ensures
        r == (a@ == b@),
{
    if a.len() != b.len() {
        return false;
    }
    for i in 0..a.len()
        invariant
            a.len() == b.len(),
            forall|j: int| 0 <= j < i ==> a@[j] == b@[j],
    {
        if a[i] != b[i] {
            return false;
        }
    }
    assert(a@ =~= b@);
    true
}

/// Whether two runs of numbers are the same.
pub fn same_numbers(a: &Vec<u32>, b: &Vec<u32>) -> (r: bool)
    ensures
        r == (a@ == b@),
{
    if a.len() != b.len() {
        return false;
    }
    for i in 0..a.len()
        invariant
            a.len() == b.len(),
            forall|j: int| 0 <= j < i ==> a@[j] == b@[j],
    {
        if a[i] != b[i] {
            return false;
        }
    }
    assert(a@ =~= b@);
    true
}

/// Makes every ASCII capital small.
pub fn to_lower_bytes(v: &[u8]) -> (r: Vec<u8>)
    ensures
        r@ == lower_bytes(v@),
{
    let mut r: Vec<u8> = Vec::new();
    for i in 0..v.len()
        invariant
            r@ =~= lower_bytes(v@).take(i as int),
    {
        let b: u8 = v[i];
        if 65 <= b && b <= 90 {
            r.push(b + 32);
        } else {
            r.push(b);
        }
    }
    r
}

/// Whether one run of numbers comes before another in the dictionary order.
pub fn comes_before(a: &Vec<u32>, b: &Vec<u32>) -> (r: bool)
    ensures
        r == dictionary_less(a@, b@),
{
    let mut i: usize = 0;
    assert(a@.subrange(0, a@.len() as int) =~= a@);
    assert(b@.subrange(0, b@.len() as int) =~= b@);
    loop
        invariant
            i <= a.len(),
            i <= b.len(),
            dictionary_less(a@, b@) == dictionary_less(
                a@.subrange(i as int, a@.len() as int),
                b@.subrange(i as int, b@.len() as int),
            ),
        decreases a.len() - i,
    {
        if i == b.len() {
            return false;
        }
        if i == a.len() {
            return true;
        }
        if a[i] != b[i] {
            return a[i] < b[i];
        }
        proof {
            let x = a@.subrange(i as int, a@.len() as int);
            let y = b@.subrange(i as int, b@.len() as int);
            assert(x.subrange(1, x.len() as int) =~= a@.subrange(i + 1, a@.len() as int));
            assert(y.subrange(1, y.len() as int) =~= b@.subrange(i + 1, b@.len() as int));
        }
        i = i + 1;
    }
}

/// The dictionary order is a strict total order: of two sequences exactly one of "before",
/// "after" and "equal" holds.
pub proof fn dictionary_order_is_total(a: Seq<u32>, b: Seq<u32>)
    ensures
        !(dictionary_less(a, b) && dictionary_less(b, a)),
        a == b ==> !dictionary_less(a, b),
        a != b ==> dictionary_less(a, b) || dictionary_less(b, a),
    decreases a.len(),
{
    if a.len() > 0 && b.len() > 0 && a[0] == b[0] {
        let x = a.subrange(1, a.len() as int);
        let y = b.subrange(1, b.len() as int);
        dictionary_order_is_total(x, y);
        if x == y {
            assert(a =~= seq![a[0]] + x);
            assert(b =~= seq![b[0]] + y);
            assert(a =~= b);
        }
    } else if a.len() == 0 && b.len() == 0 {
        assert(a =~= b);
    }
}

/// The dictionary order carries over chains.
pub proof fn dictionary_order_is_transitive(a: Seq<u32>, b: Seq<u32>, c: Seq<u32>)
    requires
        dictionary_less(a, b),
        dictionary_less(b, c),
    ensures
        dictionary_less(a, c),
    decreases a.len(),
{
    if a.len() > 0 && a[0] == b[0] && b[0] == c[0] {
        dictionary_order_is_transitive(
            a.subrange(1, a.len() as int),
            b.subrange(1, b.len() as int),
            c.subrange(1, c.len() as int),
        );
    }
}

/// One sequence comes before another exactly where it ends first, and agrees with it so far, or
/// where the first number in which they differ is the smaller one.
pub proof fn the_first_difference_decides(a: Seq<u32>, b: Seq<u32>, k: int)
    requires
        0 <= k <= a.len(),
        k <= b.len(),
        forall|i: int| 0 <= i < k ==> a[i] == b[i],
        k < a.len() && k < b.len() ==> a[k] != b[k],
    ensures
        k < a.len() && k < b.len() ==> (dictionary_less(a, b) <==> a[k] < b[k]),
        k == a.len() && k < b.len() ==> dictionary_less(a, b),
        k == b.len() ==> !dictionary_less(a, b),
    decreases k,
{
    if k > 0 {
        let x = a.subrange(1, a.len() as int);
        let y = b.subrange(1, b.len() as int);
        assert forall|i: int| 0 <= i < k - 1 implies x[i] == y[i] by {
            assert(a[i + 1] == b[i + 1]);
        }
        the_first_difference_decides(x, y, k - 1);
    }
}

/// The lower case of a byte differs from it exactly for the capital letters, which lie 32 below
/// their small ones; the upper case undoes that.
pub proof fn only_letters_have_a_case(b: u8)
    ensures
        65 <= b <= 90 ==> lower_byte(b) == b + 32 && upper_byte(lower_byte(b)) == b,
        !(65 <= b <= 90) ==> lower_byte(b) == b,
        97 <= b <= 122 ==> upper_byte(b) == b - 32 && lower_byte(upper_byte(b)) == b,
        !(97 <= b <= 122) ==> upper_byte(b) == b,
        is_letter(b) <==> lower_byte(b) != upper_byte(b),
{
}

} // verus!
