//! Character-level helpers: whitespace stripping, decimal rendering and
//! parsing, and the `batch@index` identifiers built from them.
use vstd::prelude::*;

verus! {

/// The Unicode `White_Space` property: the characters for which
/// `char::is_whitespace` holds.
pub open spec fn is_whitespace(c: char) -> bool {
    ||| ('\u{9}' <= c && c <= '\u{d}')
    ||| c == ' '
    ||| c == '\u{85}'
    ||| c == '\u{a0}'
    ||| c == '\u{1680}'
    ||| ('\u{2000}' <= c && c <= '\u{200a}')
    ||| c == '\u{2028}'
    ||| c == '\u{2029}'
    ||| c == '\u{202f}'
    ||| c == '\u{205f}'
    ||| c == '\u{3000}'
}

/// Tests the Unicode `White_Space` property of one character.
pub fn char_is_whitespace(c: char) -> (r: bool)
    ensures
        r == is_whitespace(c),
{
    ('\u{9}' <= c && c <= '\u{d}') || c == ' ' || c == '\u{85}' || c == '\u{a0}' || c
        == '\u{1680}' || ('\u{2000}' <= c && c <= '\u{200a}') || c == '\u{2028}' || c
        == '\u{2029}' || c == '\u{202f}' || c == '\u{205f}' || c == '\u{3000}'
}

/// The text with every whitespace character removed, the others kept in order.
pub open spec fn clean_text_spec(s: Seq<char>) -> Seq<char> {
    s.filter(|c: char| !is_whitespace(c))
}

/// Appends one character to a string (`String::push`).
#[verifier::external_body]
pub(crate) fn push_char(s: &mut String, c: char)
    ensures
        final(s)@ == old(s)@.push(c),
{
    s.push(c)
}

/// Removes every whitespace character from `text`.
#[allow(non_snake_case)]
pub fn cleanText(text: &String) -> (result: String)
    ensures
        result@ == clean_text_spec(text@),
{
    let mut result = String::new();
    for c in it: text.as_str().chars()
        invariant
            it.seq() == text@,
            result@ == clean_text_spec(text@.take(it.index())),
    {
        let ghost i = it.index();
        proof {
            assert(text@.take(i + 1) =~= text@.take(i).push(c));
            text@.take(i).lemma_filter_push(c, |c: char| !is_whitespace(c));
        }
        if !char_is_whitespace(c) {
            push_char(&mut result, c);
        }
    }
    proof {
        assert(text@.take(text@.len() as int) =~= text@);
    }
    result
}

} // verus!

verus! {

/// The character of a decimal digit `d < 10`.
pub open spec fn digit_char(d: nat) -> char {
    ('0' as int + d) as char
}

/// The value of a decimal digit character.
pub open spec fn char_digit(c: char) -> nat {
    (c as int - '0' as int) as nat
}

pub open spec fn is_digit(c: char) -> bool {
    '0' <= c && c <= '9'
}

pub open spec fn all_digits(s: Seq<char>) -> bool {
    forall|i: int| 0 <= i < s.len() ==> is_digit(#[trigger] s[i])
}

/// The shortest decimal rendering of `n` (what `Display` writes for an unsigned integer).
pub open spec fn decimal(n: nat) -> Seq<char>
    decreases n,
{
    if n < 10 {
        seq![digit_char(n)]
    } else {
        decimal(n / 10).push(digit_char(n % 10))
    }
}

/// The number that a string of decimal digits denotes.
pub open spec fn digits_value(s: Seq<char>) -> nat
    decreases s.len(),
{
    if s.len() == 0 {
        0
    } else {
        digits_value(s.drop_last()) * 10 + char_digit(s.last())
    }
}

/// What `str::parse::<usize>` accepts and returns: an optional `+` sign, then one
/// or more decimal digits whose value fits in a `usize`.
pub open spec fn parse_usize_spec(s: Seq<char>) -> Option<usize> {
    let d = if s.len() > 0 && s[0] == '+' {
        s.drop_first()
    } else {
        s
    };
    if d.len() > 0 && all_digits(d) && digits_value(d) <= usize::MAX {
        Some(digits_value(d) as usize)
    } else {
        None
    }
}

proof fn lemma_digit_char(d: nat)
    requires
        d < 10,
    ensures
        is_digit(digit_char(d)),
        char_digit(digit_char(d)) == d,
        digit_char(d) as int == '0' as int + d,
{
}

pub proof fn lemma_decimal_digits(n: nat)
    ensures
        decimal(n).len() > 0,
        all_digits(decimal(n)),
        digits_value(decimal(n)) == n,
    decreases n,
{
    lemma_digit_char(n % 10);
    if n < 10 {
        assert(decimal(n).drop_last() =~= Seq::<char>::empty());
        assert(digits_value(decimal(n)) == digits_value(Seq::<char>::empty()) * 10 + char_digit(
            digit_char(n),
        ));
    } else {
        lemma_decimal_digits(n / 10);
        let s = decimal(n);
        assert(s.drop_last() =~= decimal(n / 10));
        assert forall|i: int| 0 <= i < s.len() implies is_digit(#[trigger] s[i]) by {
            if i < s.len() - 1 {
                assert(s[i] == decimal(n / 10)[i]);
            }
        }
        assert(s.last() == digit_char(n % 10));
        assert(digits_value(s) == digits_value(decimal(n / 10)) * 10 + char_digit(
            digit_char(n % 10),
        ));
    }
}

proof fn lemma_digits_value_prefix(s: Seq<char>, k: int)
    requires
        0 <= k <= s.len(),
    ensures
        digits_value(s.take(k)) <= digits_value(s),
    decreases s.len(),
{
    if k < s.len() {
        assert(s.drop_last().take(k) =~= s.take(k));
        lemma_digits_value_prefix(s.drop_last(), k);
    } else {
        assert(s.take(k) =~= s);
    }
}

/// Appends the decimal rendering of `n` to `s`.
fn push_decimal(s: &mut String, n: usize)
    ensures
        final(s)@ == old(s)@ + decimal(n as nat),
    decreases n,
{
    if n >= 10 {
        push_decimal(s, n / 10);
    }
    let d: u8 = (n % 10) as u8;
    let c: char = (48u8 + d) as char;
    assert(c == digit_char((n % 10) as nat));
    push_char(s, c);
    assert(decimal(n as nat) == if n < 10 {
        seq![digit_char(n as nat)]
    } else {
        decimal((n / 10) as nat).push(digit_char((n % 10) as nat))
    });
    assert(final(s)@ =~= old(s)@ + decimal(n as nat));
}

/// The decimal rendering of `n`, as `n.to_string()` gives it.
pub fn usize_to_string(n: usize) -> (r: String)
    ensures
        r@ == decimal(n as nat),
{
    let mut s = String::new();
    push_decimal(&mut s, n);
    assert(s@ =~= decimal(n as nat));
    s
}

/// Parses a decimal `usize` as `str::parse::<usize>` does.
pub fn parse_usize(s: &str) -> (r: Option<usize>)
    ensures
        r == parse_usize_spec(s@),
{
    let len = s.unicode_len();
    let start: usize = if len > 0 && s.get_char(0) == '+' {
        1
    } else {
        0
    };
    let d = s.substring_char(start, len);
    assert(d@ =~= (if s@.len() > 0 && s@[0] == '+' {
        s@.drop_first()
    } else {
        s@
    }));
    if start == len {
        return None;
    }
    let mut value: usize = 0;
    for c in it: d.chars()
        invariant
            it.seq() == d@,
            d@ == (if s@.len() > 0 && s@[0] == '+' {
                s@.drop_first()
            } else {
                s@
            }),
            all_digits(d@.take(it.index())),
            value == digits_value(d@.take(it.index())),
    {
        let ghost i = it.index();
        proof {
            assert(d@.take(i + 1).drop_last() =~= d@.take(i));
        }
        assert(c == d@[i]);
        if !('0' <= c && c <= '9') {
            proof {
                assert(!is_digit(d@[i]));
            }
            return None;
        }
        let dv: usize = ((c as u32) - ('0' as u32)) as usize;
        assert(dv == char_digit(c));
        let next = value.checked_mul(10);
        match next {
            None => {
                proof {
                    lemma_digits_value_prefix(d@, i + 1);
                    if all_digits(d@) {
                        assert(digits_value(d@) > usize::MAX);
                    }
                }
                return None;
            },
            Some(v10) => {
                let next2 = v10.checked_add(dv);
                match next2 {
                    None => {
                        proof {
                            lemma_digits_value_prefix(d@, i + 1);
                            assert(d@.take(i + 1).last() == c);
                            assert(digits_value(d@.take(i + 1)) == value * 10 + dv);
                        }
                        return None;
                    },
                    Some(v) => {
                        proof {
                            assert(d@.take(i + 1).last() == c);
                        }
                        value = v;
                    },
                }
            },
        }
        proof {
            assert forall|j: int| 0 <= j < i + 1 implies is_digit(#[trigger] d@.take(i + 1)[j]) by {
                if j < i {
                    assert(d@.take(i + 1)[j] == d@.take(i)[j]);
                }
            }
        }
    }
    proof {
        assert(d@.take(d@.len() as int) =~= d@);
    }
    Some(value)
}

} // verus!

verus! {

/// The identifier `"{batch}@{index}"`.
pub open spec fn index_spec(batch: nat, index: nat) -> Seq<char> {
    decimal(batch) + seq!['@'] + decimal(index)
}

/// `i` is the position of the first `@` in `s`.
pub open spec fn is_first_at(s: Seq<char>, i: int) -> bool {
    &&& 0 <= i < s.len()
    &&& s[i] == '@'
    &&& forall|j: int| 0 <= j < i ==> s[j] != '@'
}

/// What follows the first `@` of `s` (`str::split_once("@")`), if `s` holds one.
pub open spec fn after_first_at(s: Seq<char>) -> Option<Seq<char>> {
    if exists|i: int| is_first_at(s, i) {
        Some(s.skip((choose|i: int| is_first_at(s, i)) + 1))
    } else {
        None
    }
}

/// The index that follows the first `@` of an identifier, when it parses as a `usize`.
pub open spec fn batch_index_spec(s: Seq<char>) -> Option<usize> {
    match after_first_at(s) {
        Some(t) => parse_usize_spec(t),
        None => None,
    }
}

proof fn lemma_first_at_unique(s: Seq<char>, i: int, j: int)
    requires
        is_first_at(s, i),
        is_first_at(s, j),
    ensures
        i == j,
{
    if i < j {
        assert(s[i] != '@');
    } else if j < i {
        assert(s[j] != '@');
    }
}

/// Builds the identifier `"{batch_index}@{index}"`.
pub fn generate_index(batch_index: usize, index: usize) -> (r: String)
    ensures
        r@ == index_spec(batch_index as nat, index as nat),
{
    let mut s = String::new();
    push_decimal(&mut s, batch_index);
    push_char(&mut s, '@');
    push_decimal(&mut s, index);
    assert(s@ =~= index_spec(batch_index as nat, index as nat));
    s
}

/// The position of the first `@` of `s`.
fn find_first_at(s: &str) -> (r: Option<usize>)
    ensures
        r matches Some(i) ==> is_first_at(s@, i as int),
        r is None ==> !(exists|i: int| is_first_at(s@, i)),
{
    let len = s.unicode_len();
    let mut pos: usize = 0;
    for c in it: s.chars()
        invariant
            it.seq() == s@,
            len == s@.len(),
            pos == it.index(),
            forall|j: int| 0 <= j < pos ==> s@[j] != '@',
    {
        assert(c == s@[pos as int]);
        if c == '@' {
            return Some(pos);
        }
        pos = pos + 1;
    }
    proof {
        assert forall|i: int| !is_first_at(s@, i) by {
            if 0 <= i < s@.len() {
                assert(s@[i] != '@');
            }
        }
    }
    None
}

/// Reads the index that follows the first `@` of `proc_id`, when there is one and
/// it parses as a `usize`.
pub fn parse_batch_index(proc_id: &str) -> (r: Option<usize>)
    ensures
        r == batch_index_spec(proc_id@),
{
    match find_first_at(proc_id) {
        None => None,
        Some(i) => {
            let len = proc_id.unicode_len();
            let rest = proc_id.substring_char(i + 1, len);
            proof {
                let k = choose|k: int| is_first_at(proc_id@, k);
                lemma_first_at_unique(proc_id@, i as int, k);
                assert(rest@ =~= proc_id@.skip(i + 1));
            }
            parse_usize(rest)
        },
    }
}

/// Reads the batch index of an identifier `"{id}@{index}"`.
pub fn get_bacth_index_from_proc_id(proc_id: &String) -> (r: usize)
    requires
        batch_index_spec(proc_id@) is Some,
    ensures
        batch_index_spec(proc_id@) == Some(r),
{
    match parse_batch_index(proc_id.as_str()) {
        Some(v) => v,
        None => 0,
    }
}

/// Reading back an identifier built by `generate_index` gives the index it was built from.
pub proof fn lemma_index_roundtrip(batch_index: usize, index: usize)
    ensures
        batch_index_spec(index_spec(batch_index as nat, index as nat)) == Some(index),
{
    let s = index_spec(batch_index as nat, index as nat);
    let b = decimal(batch_index as nat);
    let d = decimal(index as nat);
    lemma_decimal_digits(batch_index as nat);
    lemma_decimal_digits(index as nat);
    let k = b.len() as int;
    assert(s[k] == '@');
    assert forall|j: int| 0 <= j < k implies s[j] != '@' by {
        assert(s[j] == b[j]);
        assert(is_digit(b[j]));
    }
    assert(is_first_at(s, k));
    let c = choose|i: int| is_first_at(s, i);
    lemma_first_at_unique(s, k, c);
    assert(s.skip(k + 1) =~= d);
    assert(is_digit(d[0]));
}

/// Two identifiers built by `generate_index` are equal only when they were built
/// from the same batch and the same index.
pub proof fn lemma_index_injective(b1: usize, i1: usize, b2: usize, i2: usize)
    requires
        index_spec(b1 as nat, i1 as nat) == index_spec(b2 as nat, i2 as nat),
    ensures
        b1 == b2,
        i1 == i2,
{
    let s = index_spec(b1 as nat, i1 as nat);
    let p1 = decimal(b1 as nat);
    let p2 = decimal(b2 as nat);
    lemma_decimal_digits(b1 as nat);
    lemma_decimal_digits(b2 as nat);
    lemma_decimal_digits(i1 as nat);
    lemma_decimal_digits(i2 as nat);
    let k1 = p1.len() as int;
    let k2 = p2.len() as int;
    assert forall|j: int| 0 <= j < k1 implies s[j] != '@' by {
        assert(s[j] == p1[j]);
        assert(is_digit(p1[j]));
    }
    assert forall|j: int| 0 <= j < k2 implies s[j] != '@' by {
        assert(s[j] == p2[j]);
        assert(is_digit(p2[j]));
    }
    assert(s[k1] == '@');
    assert(s[k2] == '@');
    lemma_first_at_unique(s, k1, k2);
    assert(s.take(k1) =~= p1);
    assert(s.take(k2) =~= p2);
    assert(s.skip(k1 + 1) =~= decimal(i1 as nat));
    assert(s.skip(k2 + 1) =~= decimal(i2 as nat));
}

/// No whitespace is left in cleaned text.
pub proof fn lemma_clean_text_has_no_whitespace(s: Seq<char>)
    ensures
        forall|i: int|
            0 <= i < clean_text_spec(s).len() ==> !is_whitespace(#[trigger] clean_text_spec(s)[i]),
{
    broadcast use vstd::seq_lib::group_filter_ensures;

}

/// Cleaning cleaned text changes nothing.
pub proof fn lemma_clean_text_idempotent(s: Seq<char>)
    ensures
        clean_text_spec(clean_text_spec(s)) == clean_text_spec(s),
    decreases s.len(),
{
    if s.len() > 0 {
        lemma_clean_text_idempotent(s.drop_last());
        assert(s.drop_last().push(s.last()) =~= s);
        s.drop_last().lemma_filter_push(s.last(), |c: char| !is_whitespace(c));
        let t = clean_text_spec(s.drop_last());
        if !is_whitespace(s.last()) {
            t.lemma_filter_push(s.last(), |c: char| !is_whitespace(c));
        }
    } else {
        reveal(Seq::filter);
    }
}

} // verus!
