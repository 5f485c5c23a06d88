//! Small verified text helpers shared by the gateway protocol and the
//! screen-side order formatting: string equality, rendering a number as
//! decimal digits, and parsing decimal digits back into a number.
use vstd::prelude::*;

verus! {

/// Compares two string slices character by character.
pub fn str_eq(a: &str, b: &str) -> (r: bool)
    ensures
        r == (a@ == b@),
{
    let alen = a.unicode_len();
    let blen = b.unicode_len();
    if alen != blen {
        assert(a@ != b@) by {
            assert(a@.len() != b@.len());
        }
        return false;
    }
    let mut i: usize = 0;
    while i < alen
        invariant
            i <= alen,
            alen == a@.len(),
            alen == b@.len(),
            forall|j: int| 0 <= j < i ==> a@[j] == b@[j],
        decreases alen - i,
    {
        if a.get_char(i) != b.get_char(i) {
            return false;
        }
        i += 1;
    }
    assert(a@ =~= b@);
    true
}

/// The decimal digit character for a value below ten.
pub open spec fn spec_digit(d: int) -> char {
    if d == 0 {
        '0'
    } else if d == 1 {
        '1'
    } else if d == 2 {
        '2'
    } else if d == 3 {
        '3'
    } else if d == 4 {
        '4'
    } else if d == 5 {
        '5'
    } else if d == 6 {
        '6'
    } else if d == 7 {
        '7'
    } else if d == 8 {
        '8'
    } else {
        '9'
    }
}

/// The canonical decimal rendering of a non-negative integer.
pub open spec fn spec_u64_string(n: int) -> Seq<char>
    decreases n,
{
    if n <= 9 {
        seq![spec_digit(n)]
    } else {
        spec_u64_string(n / 10).push(spec_digit(n % 10))
    }
}

fn digit_str(d: u64) -> (r: &'static str)
    requires
        d < 10,
    ensures
        r@ =~= seq![spec_digit(d as int)],
{
    proof {
        reveal_strlit("0");
        reveal_strlit("1");
        reveal_strlit("2");
        reveal_strlit("3");
        reveal_strlit("4");
        reveal_strlit("5");
        reveal_strlit("6");
        reveal_strlit("7");
        reveal_strlit("8");
        reveal_strlit("9");
    }
    match d {
        0 => "0",
        1 => "1",
        2 => "2",
        3 => "3",
        4 => "4",
        5 => "5",
        6 => "6",
        7 => "7",
        8 => "8",
        _ => "9",
    }
}

/// Renders a number as its decimal digits.
pub fn u64_to_string(n: u64) -> (r: String)
    ensures
        r@ == spec_u64_string(n as int),
    decreases n,
{
    if n <= 9 {
        let mut s = String::new();
        s.append(digit_str(n));
        assert(s@ =~= spec_u64_string(n as int));
        s
    } else {
        let mut s = u64_to_string(n / 10);
        s.append(digit_str(n % 10));
        assert(s@ =~= spec_u64_string(n as int));
        s
    }
}

/// Whether a character is a decimal digit.
pub open spec fn spec_is_digit(c: char) -> bool {
    '0' <= c <= '9'
}

/// The numeric value of a sequence of decimal digits, most significant first.
pub open spec fn spec_digits_value(s: Seq<char>) -> int
    decreases s.len(),
{
    if s.len() == 0 {
        0
    } else {
        spec_digits_value(s.drop_last()) * 10 + (s.last() as int - '0' as int)
    }
}

/// A string parses as a `u32` here when it is a non-empty, all-digit string
/// whose value fits in 32 bits.
pub open spec fn spec_parses_as_u32(s: Seq<char>) -> bool {
    &&& s.len() > 0
    &&& (forall|j: int| 0 <= j < s.len() ==> spec_is_digit(#[trigger] s[j]))
    &&& spec_digits_value(s) <= u32::MAX
}

proof fn lemma_digits_value_nonneg(s: Seq<char>)
    requires
        forall|j: int| 0 <= j < s.len() ==> spec_is_digit(#[trigger] s[j]),
    ensures
        spec_digits_value(s) >= 0,
    decreases s.len(),
{
    if s.len() > 0 {
        lemma_digits_value_nonneg(s.drop_last());
    }
}

/// Parses a decimal string into a `u32`, accepting exactly the strings that
/// `spec_parses_as_u32` admits.
pub fn parse_u32(s: &str) -> (r: Option<u32>)
    ensures
        match r {
            Some(v) => spec_parses_as_u32(s@) && v as int == spec_digits_value(s@),
            None => !spec_parses_as_u32(s@),
        },
{
    let len = s.unicode_len();
    if len == 0 {
        return None;
    }
    let mut i: usize = 0;
    while i < len
        invariant
            i <= len,
            len == s@.len(),
            forall|j: int| 0 <= j < i ==> spec_is_digit(#[trigger] s@[j]),
        decreases len - i,
    {
        let c = s.get_char(i);
        if !('0' <= c && c <= '9') {
            assert(!spec_parses_as_u32(s@));
            return None;
        }
        i += 1;
    }
    let mut acc: u64 = 0;
    let mut k: usize = 0;
    while k < len
        invariant
            k <= len,
            len == s@.len(),
            forall|j: int| 0 <= j < len ==> spec_is_digit(#[trigger] s@[j]),
            acc as int == spec_digits_value(s@.take(k as int)),
            acc <= u32::MAX,
        decreases len - k,
    {
        let c = s.get_char(k);
        let d: u64 = ((c as u32) as u64) - (('0' as u32) as u64);
        let next: u64 = acc * 10 + d;
        assert(s@.take(k + 1).drop_last() =~= s@.take(k as int));
        if next > u32::MAX as u64 {
            // The running value already exceeds 32 bits, and appending digits
            // never shrinks the value, so the whole string cannot fit either.
            proof {
                lemma_digits_value_monotone(s@, k as int);
            }
            return None;
        }
        acc = next;
        k += 1;
    }
    assert(s@.take(len as int) =~= s@);
    Some(acc as u32)
}

/// Appending digits to a digit string never decreases its value.
proof fn lemma_digits_value_monotone(s: Seq<char>, i: int)
    requires
        0 <= i < s.len(),
        forall|j: int| 0 <= j < s.len() ==> spec_is_digit(#[trigger] s[j]),
    ensures
        spec_digits_value(s) >= spec_digits_value(s.take(i + 1)),
    decreases s.len() - i,
{
    if i + 1 == s.len() {
        assert(s.take(i + 1) =~= s);
    } else {
        lemma_digits_value_monotone(s, i + 1);
        assert(s.take(i + 2).drop_last() =~= s.take(i + 1));
        lemma_digits_value_nonneg(s.take(i + 1));
    }
}


/// Whether a character is ASCII whitespace.
pub open spec fn spec_is_ws(c: char) -> bool {
    c == ' ' || c == '\t' || c == '\n' || c == '\r'
}

/// The string with leading ASCII whitespace removed.
pub open spec fn spec_trim_front(s: Seq<char>) -> Seq<char>
    decreases s.len(),
{
    if s.len() > 0 && spec_is_ws(s[0]) {
        spec_trim_front(s.drop_first())
    } else {
        s
    }
}

/// The string with trailing ASCII whitespace removed.
pub open spec fn spec_trim_back(s: Seq<char>) -> Seq<char>
    decreases s.len(),
{
    if s.len() > 0 && spec_is_ws(s.last()) {
        spec_trim_back(s.drop_last())
    } else {
        s
    }
}

/// The string with ASCII whitespace removed from both ends.
pub open spec fn spec_trim(s: Seq<char>) -> Seq<char> {
    spec_trim_back(spec_trim_front(s))
}

/// Skipping a prefix of whitespace does not change the front-trimmed string.
proof fn lemma_trim_front_skip(s: Seq<char>, k: int)
    requires
        0 <= k <= s.len(),
        forall|j: int| 0 <= j < k ==> spec_is_ws(s[j]),
    ensures
        spec_trim_front(s) == spec_trim_front(s.subrange(k, s.len() as int)),
    decreases k,
{
    if k > 0 {
        assert(s.drop_first() =~= s.subrange(1, s.len() as int));
        lemma_trim_front_skip(s.drop_first(), k - 1);
        assert(s.drop_first().subrange(k - 1, s.drop_first().len() as int) =~= s.subrange(
            k,
            s.len() as int,
        ));
    } else {
        assert(s.subrange(0, s.len() as int) =~= s);
    }
}

/// Dropping a suffix of whitespace does not change the back-trimmed string.
proof fn lemma_trim_back_skip(s: Seq<char>, k: int)
    requires
        0 <= k <= s.len(),
        forall|j: int| k <= j < s.len() ==> spec_is_ws(s[j]),
    ensures
        spec_trim_back(s) == spec_trim_back(s.subrange(0, k)),
    decreases s.len() - k,
{
    if k < s.len() {
        assert(s.drop_last() =~= s.subrange(0, s.len() - 1));
        lemma_trim_back_skip(s.drop_last(), k);
        assert(s.drop_last().subrange(0, k) =~= s.subrange(0, k));
    } else {
        assert(s.subrange(0, s.len() as int) =~= s);
    }
}

fn is_ws_char(c: char) -> (r: bool)
    ensures
        r == spec_is_ws(c),
{
    c == ' ' || c == '\t' || c == '\n' || c == '\r'
}

/// Removes ASCII whitespace from both ends of a string.
pub fn trim_ws(s: &str) -> (r: String)
    ensures
        r@ == spec_trim(s@),
{
    let len = s.unicode_len();
    let mut a: usize = 0;
    while a < len && is_ws_char(s.get_char(a))
        invariant
            a <= len,
            len == s@.len(),
            forall|j: int| 0 <= j < a ==> spec_is_ws(s@[j]),
        decreases len - a,
    {
        a += 1;
    }
    proof {
        lemma_trim_front_skip(s@, a as int);
    }
    let mut b: usize = len;
    while b > a && is_ws_char(s.get_char(b - 1))
        invariant
            a <= b <= len,
            len == s@.len(),
            forall|j: int| 0 <= j < a ==> spec_is_ws(s@[j]),
            forall|j: int| b <= j < len ==> spec_is_ws(s@[j]),
        decreases b,
    {
        b -= 1;
    }
    let mid = s.substring_char(a, b);
    proof {
        let front = s@.subrange(a as int, len as int);
        assert(spec_trim_front(s@) == front);
        if b == a {
            // The whole remainder is whitespace, so the trim is empty.
            lemma_trim_back_skip(front, 0);
            assert(front.subrange(0, 0) =~= Seq::<char>::empty());
            assert(mid@ =~= Seq::<char>::empty());
        } else {
            // front[j] for j >= b - a is whitespace.
            assert forall|j: int| b - a <= j < front.len() implies spec_is_ws(front[j]) by {
                assert(front[j] == s@[a + j]);
            }
            lemma_trim_back_skip(front, b - a);
            // front ends at a non-whitespace character, so back-trimming stops.
            assert(front.subrange(0, b - a) =~= s@.subrange(a as int, b as int));
            assert(s@.subrange(a as int, b as int).last() == s@[b - 1]);
        }
    }
    mid.to_owned()
}

/// The pieces of a comma-separated string, joined back with commas.
pub open spec fn spec_join_commas(parts: Seq<Seq<char>>) -> Seq<char>
    decreases parts.len(),
{
    if parts.len() == 0 {
        Seq::empty()
    } else if parts.len() == 1 {
        parts[0]
    } else {
        spec_join_commas(parts.drop_last()) + seq![','] + parts.last()
    }
}

/// The views of a vector of strings.
pub open spec fn spec_views(parts: Seq<String>) -> Seq<Seq<char>> {
    parts.map_values(|p: String| p@)
}

/// A string without commas.
pub open spec fn spec_no_comma(s: Seq<char>) -> bool {
    forall|j: int| 0 <= j < s.len() ==> s[j] != ','
}

/// Splits a string at every comma. The result is pinned down exactly: the
/// parts contain no commas, and joining them back with commas restores the
/// input.
pub fn split_commas(s: &str) -> (parts: Vec<String>)
    ensures
        parts@.len() >= 1,
        forall|i: int| 0 <= i < parts@.len() ==> spec_no_comma((#[trigger] parts@[i])@),
        spec_join_commas(spec_views(parts@)) == s@,
{
    let len = s.unicode_len();
    let mut parts: Vec<String> = Vec::new();
    let mut start: usize = 0;
    let mut i: usize = 0;
    while i < len
        invariant
            start <= i <= len,
            len == s@.len(),
            forall|j: int| start <= j < i ==> s@[j] != ',',
            forall|p: int| 0 <= p < parts@.len() ==> spec_no_comma((#[trigger] parts@[p])@),
            spec_join_commas(spec_views(parts@).push(s@.subrange(start as int, i as int)))
                == s@.take(i as int),
        decreases len - i,
    {
        let c = s.get_char(i);
        proof {
            assert(s@.take(i + 1) =~= s@.take(i as int).push(s@[i as int]));
        }
        if c == ',' {
            let ghost old_parts = parts@;
            let piece = s.substring_char(start, i).to_owned();
            parts.push(piece);
            proof {
                assert(spec_views(parts@) =~= spec_views(old_parts).push(
                    s@.subrange(start as int, i as int),
                ));
                lemma_join_push_empty(spec_views(parts@));
                assert(s@.subrange(i + 1, i + 1) =~= Seq::<char>::empty());
            }
            start = i + 1;
        } else {
            proof {
                lemma_join_push_char(
                    spec_views(parts@),
                    s@.subrange(start as int, i as int),
                    s@[i as int],
                );
                assert(s@.subrange(start as int, i + 1) =~= s@.subrange(start as int, i as int).push(
                    s@[i as int],
                ));
            }
        }
        i += 1;
    }
    let ghost old_parts = parts@;
    let piece = s.substring_char(start, len).to_owned();
    parts.push(piece);
    proof {
        assert(spec_views(parts@) =~= spec_views(old_parts).push(
            s@.subrange(start as int, len as int),
        ));
        assert(s@.take(len as int) =~= s@);
    }
    parts
}

/// Appending an empty part after a comma extends the join with one comma.
proof fn lemma_join_push_empty(parts: Seq<Seq<char>>)
    requires
        parts.len() >= 1,
    ensures
        spec_join_commas(parts.push(Seq::empty())) == spec_join_commas(parts) + seq![','],
{
    let pushed = parts.push(Seq::<char>::empty());
    assert(pushed.drop_last() =~= parts);
    assert(spec_join_commas(pushed) =~= spec_join_commas(parts) + seq![','] + Seq::<char>::empty());
    assert(spec_join_commas(parts) + seq![','] + Seq::<char>::empty() =~= spec_join_commas(parts)
        + seq![',']);
}

/// Extending the part under construction extends the join by one character.
proof fn lemma_join_push_char(parts: Seq<Seq<char>>, current: Seq<char>, c: char)
    ensures
        spec_join_commas(parts.push(current.push(c))) == spec_join_commas(parts.push(current))
            + seq![c],
{
    let with_old = parts.push(current);
    let with_new = parts.push(current.push(c));
    assert(with_new.drop_last() =~= parts);
    assert(with_old.drop_last() =~= parts);
    if parts.len() == 0 {
        assert(spec_join_commas(with_new) == current.push(c));
        assert(current.push(c) =~= current + seq![c]);
    } else {
        assert(spec_join_commas(with_new) == spec_join_commas(parts) + seq![','] + current.push(
            c,
        ));
        assert(spec_join_commas(parts) + seq![','] + current.push(c) =~= (spec_join_commas(parts)
            + seq![','] + current) + seq![c]);
    }
}

} // verus!
