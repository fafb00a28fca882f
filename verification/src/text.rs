//! Text as sequences of characters: case folding, trimming, splitting, joining and numerals.
use vstd::prelude::*;

verus! {

/// `String::push` appends one character to the text; nothing else of the string changes.
pub assume_specification[ String::push ](s: &mut String, c: char)
    ensures
        final(s)@ == old(s)@.push(c),
;

/// The texts of a list of strings.
pub open spec fn texts(v: Seq<String>) -> Seq<Seq<char>> {
    Seq::new(v.len(), |i: int| v[i]@)
}

/// The pieces of a text between the occurrences of one character; one more than there are
/// occurrences.
pub open spec fn split(s: Seq<char>, sep: char) -> Seq<Seq<char>>
    decreases s.len(),
{
    if s.len() == 0 {
        seq![Seq::<char>::empty()]
    } else {
        let front = split(s.drop_last(), sep);
        if s.last() == sep {
            front.push(Seq::<char>::empty())
        } else {
            front.update(front.len() - 1, front.last().push(s.last()))
        }
    }
}

/// The parts in order with `sep` between each two.
pub open spec fn join<T>(parts: Seq<Seq<T>>, sep: Seq<T>) -> Seq<T>
    decreases parts.len(),
{
    if parts.len() == 0 {
        Seq::<T>::empty()
    } else if parts.len() == 1 {
        parts[0]
    } else {
        join(parts.drop_last(), sep) + sep + parts.last()
    }
}

/// An ASCII capital becomes its small letter; every other character stays.
pub open spec fn ascii_lower(c: char) -> char {
    if 'A' <= c && c <= 'Z' {
        ((c as u32 + 32) as u32) as char
    } else {
        c
    }
}

/// A small ASCII letter becomes its capital; every other character stays.
pub open spec fn ascii_upper(c: char) -> char {
    if 'a' <= c && c <= 'z' {
        ((c as u32 - 32) as u32) as char
    } else {
        c
    }
}

/// The text with every ASCII capital made small.
pub open spec fn lower(s: Seq<char>) -> Seq<char> {
    Seq::new(s.len(), |i: int| ascii_lower(s[i]))
}

/// The text with every small ASCII letter made a capital.
pub open spec fn upper(s: Seq<char>) -> Seq<char> {
    Seq::new(s.len(), |i: int| ascii_upper(s[i]))
}

/// Two texts that differ at most in the case of ASCII letters.
pub open spec fn same_ignoring_case(a: Seq<char>, b: Seq<char>) -> bool {
    lower(a) == lower(b)
}

/// The characters with the Unicode property White_Space.
pub open spec fn is_white_space(c: char) -> bool {
    ||| '\u{9}' <= c && c <= '\u{d}'
    ||| c == '\u{20}'
    ||| c == '\u{85}'
    ||| c == '\u{a0}'
    ||| c == '\u{1680}'
    ||| '\u{2000}' <= c && c <= '\u{200a}'
    ||| c == '\u{2028}'
    ||| c == '\u{2029}'
    ||| c == '\u{202f}'
    ||| c == '\u{205f}'
    ||| c == '\u{3000}'
}

/// The text without the white space that it starts with.
pub open spec fn trim_start(s: Seq<char>) -> Seq<char>
    decreases s.len(),
{
    if s.len() > 0 && is_white_space(s[0]) {
        trim_start(s.subrange(1, s.len() as int))
    } else {
        s
    }
}

/// The text without the white space that it ends with.
pub open spec fn trim_end(s: Seq<char>) -> Seq<char>
    decreases s.len(),
{
    if s.len() > 0 && is_white_space(s.last()) {
        trim_end(s.drop_last())
    } else {
        s
    }
}

/// The text without the white space at its two ends.
pub open spec fn trim(s: Seq<char>) -> Seq<char> {
    trim_end(trim_start(s))
}

/// A text in which every character is white space.
pub open spec fn is_blank(s: Seq<char>) -> bool {
    forall|i: int| 0 <= i < s.len() ==> is_white_space(#[trigger] s[i])
}

/// The decimal digit of a number below ten.
pub open spec fn digit(d: nat) -> char {
    ((48 + d) as u32) as char
}

/// The decimal numeral of a number, without leading zeros.
pub open spec fn decimal(n: nat) -> Seq<char>
    decreases n,
{
    if n < 10 {
        seq![digit(n)]
    } else {
        decimal(n / 10).push(digit(n % 10))
    }
}

/// The decimal numeral of an integer, with a leading `-` where it is negative.
pub open spec fn signed_decimal(n: int) -> Seq<char> {
    if n < 0 {
        seq!['-'] + decimal((-n) as nat)
    } else {
        decimal(n as nat)
    }
}

/// The hexadecimal digit, with small letters, of a number below sixteen.
pub open spec fn hex_digit(d: nat) -> char {
    if d < 10 {
        ((48 + d) as u32) as char
    } else {
        ((87 + d) as u32) as char
    }
}

/// The last `width` hexadecimal digits of a number.
pub open spec fn hexadecimal(n: nat, width: nat) -> Seq<char>
    decreases width,
{
    if width == 0 {
        Seq::<char>::empty()
    } else {
        hexadecimal(n / 16, (width - 1) as nat).push(hex_digit(n % 16))
    }
}

/// `needle` stands in `s`, starting at `at`.
pub open spec fn occurs_at(s: Seq<char>, needle: Seq<char>, at: int) -> bool {
    &&& 0 <= at <= s.len() - needle.len()
    &&& s.subrange(at, at + needle.len()) == needle
}

/// `needle` stands somewhere in `s`.
pub open spec fn has_text(s: Seq<char>, needle: Seq<char>) -> bool {
    exists|at: int| occurs_at(s, needle, at)
}

/// A split text has at least one piece.
pub proof fn lemma_split_nonempty(s: Seq<char>, sep: char)
    ensures
        split(s, sep).len() > 0,
    decreases s.len(),
{
    if s.len() > 0 {
        lemma_split_nonempty(s.drop_last(), sep);
    }
}

/// The characters of a text as numbers.
pub open spec fn char_numbers(s: Seq<char>) -> Seq<u32> {
    Seq::new(s.len(), |i: int| s[i] as u32)
}

/// The numbers of its characters tell a text.
pub proof fn lemma_char_numbers_exact(a: Seq<char>, b: Seq<char>)
    requires
        char_numbers(a) == char_numbers(b),
    ensures
        a == b,
{
    assert(a.len() == char_numbers(a).len() && b.len() == char_numbers(b).len());
    assert forall|i: int| 0 <= i < a.len() implies a[i] == b[i] by {
        assert(char_numbers(a)[i] == a[i] as u32);
        assert(char_numbers(b)[i] == b[i] as u32);
        vstd::utf8::char_u32_cast(a[i], a[i] as u32);
        vstd::utf8::char_u32_cast(b[i], b[i] as u32);
    }
    assert(a =~= b);
}

/// The characters of a text.
pub fn chars_of(s: &str) -> (v: Vec<char>)
    ensures
        v@ == s@,
{
    let mut v: Vec<char> = Vec::new();
    for c in it: s.chars()
        invariant
            v@ =~= it.seq().take(it.index() as int),
            it.seq() == s@,
    {
        v.push(c);
    }
    v
}

/// The characters of a text as numbers.
pub fn numbers_of(s: &str) -> (r: Vec<u32>)
    ensures
        r@ == char_numbers(s@),
{
    let v = chars_of(s);
    let mut r: Vec<u32> = Vec::new();
    for i in 0..v.len()
        invariant
            v@ == s@,
            r@ =~= char_numbers(s@).take(i as int),
    {
        r.push(v[i] as u32);
    }
    r
}

/// The text that some characters spell.
pub fn string_of(v: &[char]) -> (s: String)
    ensures
        s@ == v@,
{
    let mut s = String::new();
    for i in 0..v.len()
        invariant
            s@ =~= v@.take(i as int),
    {
        s.push(v[i]);
    }
    s
}

/// A copy of a list of strings.
pub fn copy_strings(v: &Vec<String>) -> (r: Vec<String>)
    ensures
        r@ == v@,
{
    let mut r: Vec<String> = Vec::new();
    for i in 0..v.len()
        invariant
            r@ =~= v@.take(i as int),
    {
        r.push(v[i].clone());
    }
    r
}

/// Makes an ASCII capital small.
pub fn to_ascii_lower(c: char) -> (r: char)
    ensures
        r == ascii_lower(c),
{
    if 'A' <= c && c <= 'Z' {
        (c as u8 + 32u8) as char
    } else {
        c
    }
}

/// Makes a small ASCII letter a capital.
pub fn to_ascii_upper(c: char) -> (r: char)
    ensures
        r == ascii_upper(c),
{
    if 'a' <= c && c <= 'z' {
        (c as u8 - 32u8) as char
    } else {
        c
    }
}

/// The text with every ASCII capital made small.
pub fn to_lower(s: &str) -> (r: String)
    ensures
        r@ == lower(s@),
{
    let v = chars_of(s);
    let mut r = String::new();
    for i in 0..v.len()
        invariant
            v@ == s@,
            r@ =~= lower(s@).take(i as int),
    {
        r.push(to_ascii_lower(v[i]));
    }
    r
}

/// The text with every small ASCII letter made a capital.
pub fn to_upper(s: &str) -> (r: String)
    ensures
        r@ == upper(s@),
{
    let v = chars_of(s);
    let mut r = String::new();
    for i in 0..v.len()
        invariant
            v@ == s@,
            r@ =~= upper(s@).take(i as int),
    {
        r.push(to_ascii_upper(v[i]));
    }
    r
}

/// Whether two texts are the same.
pub fn same_text(a: &str, b: &str) -> (r: bool)
    ensures
        r == (a@ == b@),
{
    let x = chars_of(a);
    let y = chars_of(b);
    if x.len() != y.len() {
        return false;
    }
    for i in 0..x.len()
        invariant
            x@ == a@,
            y@ == b@,
            x.len() == y.len(),
            forall|j: int| 0 <= j < i ==> x@[j] == y@[j],
    {
        if x[i] != y[i] {
            return false;
        }
    }
    assert(a@ =~= b@);
    true
}

/// Whether two texts differ at most in the case of ASCII letters.
pub fn eq_ignore_ascii_case(a: &str, b: &str) -> (r: bool)
    ensures
        r == same_ignoring_case(a@, b@),
{
    let x = to_lower(a);
    let y = to_lower(b);
    same_text(x.as_str(), y.as_str())
}

/// Whether a text starts with a prefix.
pub fn starts_with(s: &str, prefix: &str) -> (r: bool)
    ensures
        r == prefix@.is_prefix_of(s@),
{
    let x = chars_of(s);
    let p = chars_of(prefix);
    if p.len() > x.len() {
        return false;
    }
    for i in 0..p.len()
        invariant
            x@ == s@,
            p@ == prefix@,
            p.len() <= x.len(),
            forall|j: int| 0 <= j < i ==> x@[j] == p@[j],
    {
        if x[i] != p[i] {
            assert(s@.subrange(0, prefix@.len() as int)[i as int] == x@[i as int]);
            return false;
        }
    }
    assert(s@.subrange(0, prefix@.len() as int) =~= prefix@);
    true
}

/// Whether a character stands in a text.
pub fn contains_char(s: &str, c: char) -> (r: bool)
    ensures
        r == s@.contains(c),
{
    let x = chars_of(s);
    for i in 0..x.len()
        invariant
            x@ == s@,
            forall|j: int| 0 <= j < i ==> x@[j] != c,
    {
        if x[i] == c {
            assert(s@[i as int] == c);
            return true;
        }
    }
    false
}

/// Whether a text stands somewhere in another.
pub fn contains_text(s: &str, needle: &str) -> (r: bool)
    ensures
        r == has_text(s@, needle@),
{
    let x = chars_of(s);
    let n = chars_of(needle);
    if n.len() > x.len() {
        return false;
    }
    let last: usize = x.len() - n.len();
    let mut at: usize = 0;
    loop
        invariant
            at <= last,
            x@ == s@,
            n@ == needle@,
            n.len() <= x.len(),
            last == x.len() - n.len(),
            forall|k: int| 0 <= k < at ==> !occurs_at(s@, needle@, k),
        decreases last - at,
    {
        let mut hit = true;
        let mut j: usize = 0;
        while j < n.len() && hit
            invariant
                x@ == s@,
                n@ == needle@,
                at <= last,
                last == x.len() - n.len(),
                j <= n.len(),
                hit ==> forall|k: int| 0 <= k < j ==> x@[at + k] == n@[k],
                !hit ==> !occurs_at(s@, needle@, at as int),
            decreases n.len() - j + (if hit { 1int } else { 0int }),
        {
            if x[at + j] != n[j] {
                hit = false;
                assert(s@.subrange(at as int, at + needle@.len())[j as int] == x@[at + j]);
            } else {
                j = j + 1;
            }
        }
        if hit {
            assert(s@.subrange(at as int, at + needle@.len()) =~= needle@);
            assert(occurs_at(s@, needle@, at as int));
            return true;
        }
        if at == last {
            return false;
        }
        at = at + 1;
    }
}

/// Whether a character is white space.
pub fn is_whitespace(c: char) -> (r: bool)
    ensures
        r == is_white_space(c),
{
    ('\u{9}' <= c && c <= '\u{d}') || c == '\u{20}' || c == '\u{85}' || c == '\u{a0}'
        || c == '\u{1680}' || ('\u{2000}' <= c && c <= '\u{200a}') || c == '\u{2028}'
        || c == '\u{2029}' || c == '\u{202f}' || c == '\u{205f}' || c == '\u{3000}'
}

/// The text without the white space at its two ends.
pub fn trimmed(s: &str) -> (r: String)
    ensures
        r@ == trim(s@),
{
    let x = chars_of(s);
    let mut from: usize = 0;
    assert(s@.subrange(0, s@.len() as int) =~= s@);
    while from < x.len() && is_whitespace(x[from])
        invariant
            x@ == s@,
            from <= x.len(),
            trim_start(s@) == trim_start(s@.subrange(from as int, s@.len() as int)),
        decreases x.len() - from,
    {
        proof {
            let rest = s@.subrange(from as int, s@.len() as int);
            assert(rest.subrange(1, rest.len() as int) =~= s@.subrange(from + 1, s@.len() as int));
        }
        from = from + 1;
    }
    let ghost left = s@.subrange(from as int, s@.len() as int);
    assert(trim_start(s@) == left);
    let mut to: usize = x.len();
    while to > from && is_whitespace(x[to - 1])
        invariant
            x@ == s@,
            from <= to <= x.len(),
            trim_end(left) == trim_end(s@.subrange(from as int, to as int)),
        decreases to,
    {
        proof {
            let rest = s@.subrange(from as int, to as int);
            assert(rest.drop_last() =~= s@.subrange(from as int, to - 1));
        }
        to = to - 1;
    }
    let mut r = String::new();
    for i in from..to
        invariant
            x@ == s@,
            from <= to <= x.len(),
            r@ =~= s@.subrange(from as int, i as int),
    {
        r.push(x[i]);
    }
    r
}

/// Whether a text holds nothing but white space.
pub fn blank(s: &str) -> (r: bool)
    ensures
        r == is_blank(s@),
{
    let x = chars_of(s);
    for i in 0..x.len()
        invariant
            x@ == s@,
            forall|j: int| 0 <= j < i ==> is_white_space(#[trigger] x@[j]),
    {
        if !is_whitespace(x[i]) {
            assert(!is_white_space(s@[i as int]));
            return false;
        }
    }
    true
}

/// A text holds nothing but white space exactly when trimming leaves nothing of it.
pub proof fn lemma_blank_is_empty_after_trim(s: Seq<char>)
    ensures
        is_blank(s) <==> trim(s).len() == 0,
{
    lemma_trim_start(s);
    lemma_trim_end(trim_start(s));
}

proof fn lemma_trim_start(s: Seq<char>)
    ensures
        is_blank(s) ==> trim_start(s).len() == 0,
        !is_blank(s) ==> trim_start(s).len() > 0 && !is_white_space(trim_start(s)[0]),
    decreases s.len(),
{
    if s.len() > 0 && is_white_space(s[0]) {
        let rest = s.subrange(1, s.len() as int);
        lemma_trim_start(rest);
        if is_blank(s) {
            assert forall|i: int| 0 <= i < rest.len() implies is_white_space(
                #[trigger] rest[i],
            ) by {
                assert(rest[i] == s[i + 1]);
            }
        }
        if is_blank(rest) {
            assert forall|i: int| 0 <= i < s.len() implies is_white_space(#[trigger] s[i]) by {
                if i > 0 {
                    assert(s[i] == rest[i - 1]);
                }
            }
        }
    }
}

proof fn lemma_trim_end(s: Seq<char>)
    ensures
        s.len() > 0 && !is_white_space(s[0]) ==> trim_end(s).len() > 0,
        s.len() == 0 ==> trim_end(s).len() == 0,
    decreases s.len(),
{
    if s.len() > 1 {
        lemma_trim_end(s.drop_last());
    }
}

/// The pieces of a text between the occurrences of one character.
pub fn split_text(s: &str, sep: char) -> (r: Vec<String>)
    ensures
        texts(r@) == split(s@, sep),
{
    let x = chars_of(s);
    let mut done: Vec<String> = Vec::new();
    let mut piece = String::new();
    assert(texts(done@).push(piece@) =~= split(s@.take(0), sep));
    for i in 0..x.len()
        invariant
            x@ == s@,
            texts(done@).push(piece@) == split(s@.take(i as int), sep),
    {
        let ghost before = texts(done@).push(piece@);
        proof {
            assert(s@.take(i + 1).drop_last() =~= s@.take(i as int));
            assert(s@.take(i + 1).last() == x@[i as int]);
        }
        if x[i] == sep {
            done.push(piece);
            piece = String::new();
            assert(texts(done@) =~= before);
            assert(texts(done@).push(piece@) =~= before.push(Seq::<char>::empty()));
        } else {
            piece.push(x[i]);
            assert(texts(done@).push(piece@) =~= before.update(
                before.len() - 1,
                before.last().push(x@[i as int]),
            ));
        }
    }
    assert(s@.take(x.len() as int) =~= s@);
    let ghost all = texts(done@).push(piece@);
    done.push(piece);
    assert(texts(done@) =~= all);
    done
}

/// The parts in order with `sep` between each two.
pub fn join_texts(parts: &Vec<String>, sep: &str) -> (r: String)
    ensures
        r@ == join(texts(parts@), sep@),
{
    let mut r = String::new();
    let ghost all = texts(parts@);
    assert(all.take(0) =~= Seq::<Seq<char>>::empty());
    for i in 0..parts.len()
        invariant
            all == texts(parts@),
            r@ == join(all.take(i as int), sep@),
    {
        proof {
            assert(all.take(i + 1).drop_last() =~= all.take(i as int));
            assert(all.take(i + 1).last() == parts@[i as int]@);
        }
        if i > 0 {
            r.append(sep);
            r.append(parts[i].as_str());
        } else {
            r.append(parts[i].as_str());
            assert(r@ =~= parts@[0]@);
        }
    }
    assert(all.take(parts.len() as int) =~= all);
    r
}

/// The decimal numeral of a number.
pub fn number(n: u128) -> (r: String)
    ensures
        r@ == decimal(n as nat),
    decreases n,
{
    let d: u8 = (n % 10) as u8;
    let c: char = (48u8 + d) as char;
    if n < 10 {
        let mut r = String::new();
        r.push(c);
        assert(r@ =~= seq![digit(n as nat)]);
        r
    } else {
        let mut r = number(n / 10);
        r.push(c);
        r
    }
}

/// The decimal numeral of a signed number.
pub fn signed_number(n: i64) -> (r: String)
    ensures
        r@ == signed_decimal(n as int),
{
    if n < 0 {
        let m: i128 = -(n as i128);
        let mut r = String::new();
        r.push('-');
        let digits = number(m as u128);
        assert(r@ =~= seq!['-']);
        r.append(digits.as_str());
        r
    } else {
        number(n as u128)
    }
}

/// The last `width` hexadecimal digits of a number.
pub fn hex_number(n: u32, width: usize) -> (r: String)
    ensures
        r@ == hexadecimal(n as nat, width as nat),
    decreases width,
{
    if width == 0 {
        String::new()
    } else {
        let mut r = hex_number(n / 16, width - 1);
        let d: u8 = (n % 16) as u8;
        let c: char = if d < 10 {
            (48u8 + d) as char
        } else {
            (87u8 + d) as char
        };
        r.push(c);
        r
    }
}

/// The pieces of a text hold no separator, and with one between each two of them they are the text.
pub proof fn splitting_can_be_undone(s: Seq<char>, sep: char)
    ensures
        split(s, sep).len() > 0,
        forall|i: int| 0 <= i < split(s, sep).len() ==> !(#[trigger] split(s, sep)[i]).contains(sep),
        join(split(s, sep), seq![sep]) == s,
    decreases s.len(),
{
    let parts = split(s, sep);
    if s.len() == 0 {
        assert(join(parts, seq![sep]) =~= s);
    } else {
        let f = s.drop_last();
        let front = split(f, sep);
        splitting_can_be_undone(f, sep);
        if s.last() == sep {
            assert(parts.drop_last() =~= front);
            assert(join(parts, seq![sep]) =~= f + seq![sep] + Seq::<char>::empty());
            assert(f + seq![sep] + Seq::<char>::empty() =~= s);
            assert forall|i: int| 0 <= i < parts.len() implies !(#[trigger] parts[i]).contains(
                sep,
            ) by {
                if i < front.len() {
                    assert(parts[i] == front[i]);
                }
            }
        } else {
            let last = front.last().push(s.last());
            assert(parts.drop_last() =~= front.drop_last());
            assert(parts.last() == last);
            if front.len() == 1 {
                assert(join(front, seq![sep]) == front[0]);
                assert(join(parts, seq![sep]) == last);
                assert(last =~= s);
            } else {
                assert(join(parts, seq![sep]) =~= join(front, seq![sep]).push(s.last()));
                assert(f.push(s.last()) =~= s);
            }
            assert forall|i: int| 0 <= i < parts.len() implies !(#[trigger] parts[i]).contains(
                sep,
            ) by {
                if i < front.len() - 1 {
                    assert(parts[i] == front[i]);
                } else if last.contains(sep) {
                    let k = choose|k: int| 0 <= k < last.len() && last[k] == sep;
                    assert(front.last()[k] == sep);
                    assert(front[front.len() - 1].contains(sep));
                }
            }
        }
    }
}

/// Joining puts the separator between parts and nowhere else.
pub proof fn joining_works_part_by_part<T>(
    a: Seq<Seq<T>>,
    b: Seq<Seq<T>>,
    part: Seq<T>,
    sep: Seq<T>,
)
    requires
        a.len() > 0,
        b.len() > 0,
    ensures
        join(a + b, sep) == join(a, sep) + sep + join(b, sep),
        join(seq![part], sep) == part,
        join(Seq::<Seq<T>>::empty(), sep) == Seq::<T>::empty(),
    decreases b.len(),
{
    let f = b.drop_last();
    assert((a + b).drop_last() =~= a + f);
    assert((a + b).last() == b.last());
    if f.len() == 0 {
        assert(a + f =~= a);
        assert(b[0] == b.last());
    } else {
        joining_works_part_by_part(a, f, part, sep);
        assert(join(a + b, sep) =~= join(a, sep) + sep + (join(f, sep) + sep + b.last()));
    }
}

proof fn lemma_trim_start_parts(s: Seq<char>)
    ensures
        trim_start(s).len() <= s.len(),
        s.subrange(s.len() - trim_start(s).len(), s.len() as int) == trim_start(s),
        is_blank(s.take(s.len() - trim_start(s).len())),
    decreases s.len(),
{
    let t = trim_start(s);
    if s.len() > 0 && is_white_space(s[0]) {
        let rest = s.subrange(1, s.len() as int);
        lemma_trim_start_parts(rest);
        let n = s.len() - t.len();
        assert(s.subrange(n, s.len() as int) =~= rest.subrange(n - 1, rest.len() as int));
        assert forall|i: int| 0 <= i < n implies is_white_space(#[trigger] s.take(n)[i]) by {
            if i > 0 {
                assert(rest.take(n - 1)[i - 1] == s[i]);
            }
        }
    } else {
        assert(s.subrange(0, s.len() as int) =~= s);
    }
}

proof fn lemma_trim_end_parts(s: Seq<char>)
    ensures
        trim_end(s).len() <= s.len(),
        s.take(trim_end(s).len() as int) == trim_end(s),
        is_blank(s.subrange(trim_end(s).len() as int, s.len() as int)),
        trim_end(s).len() > 0 ==> !is_white_space(trim_end(s).last()),
    decreases s.len(),
{
    let t = trim_end(s);
    if s.len() > 0 && is_white_space(s.last()) {
        let f = s.drop_last();
        lemma_trim_end_parts(f);
        let n = t.len() as int;
        assert(s.take(n) =~= f.take(n));
        let end = s.subrange(n, s.len() as int);
        assert forall|i: int| 0 <= i < end.len() implies is_white_space(#[trigger] end[i]) by {
            if i < end.len() - 1 {
                assert(f.subrange(n, f.len() as int)[i] == end[i]);
            }
        }
    } else {
        assert(s.take(s.len() as int) =~= s);
    }
}

/// A trimmed text starts and ends with something other than white space, and white space is all
/// that was taken from its two ends.
pub proof fn only_white_space_is_trimmed(s: Seq<char>)
    ensures
        trim(s).len() > 0 ==> !is_white_space(trim(s)[0]) && !is_white_space(trim(s).last()),
        exists|a: int|
            0 <= a && a + trim(s).len() <= s.len() && #[trigger] s.subrange(a, a + trim(s).len())
                == trim(s) && is_blank(s.take(a)) && is_blank(
                s.subrange(a + trim(s).len(), s.len() as int),
            ),
{
    let t = trim_start(s);
    let u = trim(s);
    lemma_trim_start_parts(s);
    lemma_trim_end_parts(t);
    lemma_trim_start(s);
    let a = s.len() - t.len();
    assert(s.subrange(a, a + u.len()) =~= t.take(u.len() as int));
    assert(s.subrange(a + u.len(), s.len() as int) =~= t.subrange(u.len() as int, t.len() as int));
    if u.len() > 0 {
        assert(u[0] == t[0]);
    }
}

/// Among the first 128 characters, white space is the space and the five from the tab to the
/// carriage return.
pub proof fn ascii_white_space(c: char)
    requires
        (c as u32) < 128,
    ensures
        is_white_space(c) <==> c == ' ' || 9 <= c as u32 <= 13,
{
}

/// The number that digits write to a base.
pub open spec fn number_of(digits: Seq<int>, base: int) -> int
    decreases digits.len(),
{
    if digits.len() == 0 {
        0
    } else {
        number_of(digits.drop_last(), base) * base + digits.last()
    }
}

/// The value of a digit, up to fifteen.
pub open spec fn digit_value(c: char) -> int {
    if '0' <= c && c <= '9' {
        c as int - '0' as int
    } else if 'a' <= c && c <= 'f' {
        c as int - 'a' as int + 10
    } else {
        -1
    }
}

/// The values of some digits.
pub open spec fn digit_values(s: Seq<char>) -> Seq<int> {
    Seq::new(s.len(), |i: int| digit_value(s[i]))
}

/// The decimal digits of a number write that number, without a zero in front.
pub proof fn decimals_read_back(n: nat)
    ensures
        number_of(digit_values(decimal(n)), 10) == n,
        decimal(n).len() > 0,
        n > 0 ==> decimal(n)[0] != '0',
        forall|i: int|
            0 <= i < decimal(n).len() ==> '0' <= #[trigger] decimal(n)[i] && decimal(n)[i] <= '9',
    decreases n,
{
    let d = decimal(n);
    let v = digit_values(d);
    if n < 10 {
        assert(digit_value(digit(n)) == n);
        assert(v.drop_last() =~= Seq::empty());
        assert(number_of(v.drop_last(), 10) == 0);
    } else {
        decimals_read_back(n / 10);
        assert(v.drop_last() =~= digit_values(decimal(n / 10)));
        assert(digit_value(digit(n % 10)) == n % 10);
    }
}

/// A signed number writes its size, with a minus sign in front exactly where it is negative.
pub proof fn signs_are_written(n: int)
    ensures
        n >= 0 ==> signed_decimal(n) == decimal(n as nat),
        n < 0 ==> signed_decimal(n)[0] == '-' && signed_decimal(n).drop_first() == decimal(
            (-n) as nat,
        ),
{
    if n < 0 {
        assert(signed_decimal(n).drop_first() =~= decimal((-n) as nat));
    }
}

/// Hexadecimal digits fill their width and write the number, as far as it fits.
pub proof fn hexadecimals_read_back(n: nat, width: nat)
    ensures
        hexadecimal(n, width).len() == width,
        n < vstd::arithmetic::power::pow(16, width) ==> number_of(
            digit_values(hexadecimal(n, width)),
            16,
        ) == n,
    decreases width,
{
    vstd::arithmetic::power::lemma_pow0(16);
    if width > 0 {
        let h = hexadecimal(n, width);
        let v = digit_values(h);
        hexadecimals_read_back(n / 16, (width - 1) as nat);
        assert(v.drop_last() =~= digit_values(hexadecimal(n / 16, (width - 1) as nat)));
        assert(digit_value(hex_digit(n % 16)) == n % 16);
        reveal(vstd::arithmetic::power::pow);
    }
}

/// The case of a character is that of its letter: only the capital letters have another lower case,
/// and only the small ones another upper case.
pub proof fn only_ascii_letters_have_a_case(c: char)
    ensures
        'A' <= c && c <= 'Z' ==> ascii_lower(c) as u32 == c as u32 + 32 && ascii_upper(
            ascii_lower(c),
        ) == c,
        !('A' <= c && c <= 'Z') ==> ascii_lower(c) == c,
        'a' <= c && c <= 'z' ==> ascii_upper(c) as u32 == c as u32 - 32 && ascii_lower(
            ascii_upper(c),
        ) == c,
        !('a' <= c && c <= 'z') ==> ascii_upper(c) == c,
{
}

/// Texts that are the same but for the case of ASCII letters have the same length, and the same
/// characters but for that.
pub proof fn same_texts_differ_in_case_only(a: Seq<char>, b: Seq<char>)
    ensures
        same_ignoring_case(a, b) <==> a.len() == b.len() && forall|i: int|
            0 <= i < a.len() ==> ascii_lower(#[trigger] a[i]) == ascii_lower(b[i]),
        same_ignoring_case(a, upper(a)),
        same_ignoring_case(a, lower(a)),
{
    assert(lower(a).len() == a.len() && lower(b).len() == b.len());
    if same_ignoring_case(a, b) {
        assert forall|i: int| 0 <= i < a.len() implies ascii_lower(#[trigger] a[i]) == ascii_lower(
            b[i],
        ) by {
            assert(lower(a)[i] == lower(b)[i]);
        }
    }
    if a.len() == b.len() && forall|i: int|
        0 <= i < a.len() ==> ascii_lower(#[trigger] a[i]) == ascii_lower(b[i]) {
        assert(lower(a) =~= lower(b));
    }
    assert(lower(upper(a)) =~= lower(a));
    assert(lower(lower(a)) =~= lower(a));
}

/// The characters of white space, by their numbers.
pub proof fn white_space_by_number(c: char)
    ensures
        is_white_space(c) <==> {
            let n = c as int;
            ||| 9 <= n <= 13
            ||| n == 32 || n == 133 || n == 160 || n == 5760
            ||| 8192 <= n <= 8202
            ||| n == 8232 || n == 8233 || n == 8239 || n == 8287 || n == 12288
        },
{
}

/// A text holds another one wherever that stands in it, and holds none that is longer.
pub proof fn texts_are_found_anywhere(a: Seq<char>, needle: Seq<char>, b: Seq<char>)
    ensures
        has_text(a + needle + b, needle),
        has_text(a, needle) ==> needle.len() <= a.len(),
        has_text(a, needle) ==> has_text(a + b, needle) && has_text(b + a, needle),
{
    let all = a + needle + b;
    let at = a.len() as int;
    assert(all.subrange(at, at + needle.len()) =~= needle);
    assert(occurs_at(all, needle, at));
    if has_text(a, needle) {
        let k = choose|k: int| occurs_at(a, needle, k);
        let x = a + b;
        let y = b + a;
        assert(x.subrange(k, k + needle.len()) =~= a.subrange(k, k + needle.len()));
        assert(occurs_at(x, needle, k));
        let m = b.len() + k;
        assert(y.subrange(m, m + needle.len()) =~= a.subrange(k, k + needle.len()));
        assert(occurs_at(y, needle, m));
    }
}

/// The case of a text is changed character by character.
pub proof fn case_changes_character_by_character(s: Seq<char>, i: int)
    requires
        0 <= i < s.len(),
    ensures
        lower(s).len() == s.len() && upper(s).len() == s.len(),
        lower(s)[i] == ascii_lower(s[i]),
        upper(s)[i] == ascii_upper(s[i]),
{
}

} // verus!
