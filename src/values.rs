//! Parsers for single values: trimmed text, flags, integers, characters and
//! choices among names.

use vstd::prelude::*;

use crate::text::{chars_of, is_blank, is_blank_char, lemma_skip_step, skip_blanks};

verus! {

/// What `str::to_lowercase` makes of a text.
pub uninterp spec fn lower_of(s: Seq<char>) -> Seq<char>;

/// Relies on `str::to_lowercase`, whose result depends on the characters alone.
#[verifier::external_body]
pub(crate) fn lowercase(s: &str) -> (r: String)
    ensures
        r@ == lower_of(s@),
{
    s.to_lowercase()
}

/// `s` without its trailing white space.
pub open spec fn trim_end(s: Seq<char>) -> Seq<char>
    decreases s.len(),
{
    if s.len() > 0 && is_blank(s.last()) {
        trim_end(s.drop_last())
    } else {
        s
    }
}

/// `s` without white space at either end.
pub open spec fn trimmed(s: Seq<char>) -> Seq<char> {
    trim_end(skip_blanks(s))
}

/// `input` without white space at either end.
pub fn trim(input: &str) -> (r: String)
    ensures
        r@ == trimmed(input@),
{
    let cs = chars_of(input);
    let len = cs.len();
    let ghost s = input@;
    let mut i: usize = 0;
    assert(s.skip(0) =~= s);
    while i < len && is_blank_char(cs[i])
        invariant
            cs@ == s,
            len == cs.len(),
            i <= len,
            skip_blanks(s) == skip_blanks(s.skip(i as int)),
        decreases len - i,
    {
        proof {
            lemma_skip_step(s, i as int);
        }
        i += 1;
    }
    proof {
        lemma_skip_step(s, i as int);
        assert(s.skip(i as int) =~= s.subrange(i as int, len as int));
    }
    let mut j: usize = len;
    while j > i && is_blank_char(cs[j - 1])
        invariant
            cs@ == s,
            len == cs.len(),
            i <= j <= len,
            trimmed(s) == trim_end(s.subrange(i as int, j as int)),
        decreases j,
    {
        assert(s.subrange(i as int, j as int).drop_last() =~= s.subrange(i as int, j - 1));
        j -= 1;
    }
    input.substring_char(i, j).to_owned()
}

/// Whether `c` is a decimal digit.
pub open spec fn is_digit(c: char) -> bool {
    '0' <= c <= '9'
}

/// Whether `s` is a non-empty run of decimal digits.
pub open spec fn all_digits(s: Seq<char>) -> bool {
    s.len() > 0 && forall|i: int| 0 <= i < s.len() ==> is_digit(#[trigger] s[i])
}

/// The number that the decimal digits `s` write.
pub open spec fn digits_value(s: Seq<char>) -> int
    decreases s.len(),
{
    if s.len() == 0 {
        0
    } else {
        digits_value(s.drop_last()) * 10 + (s.last() as int - '0' as int)
    }
}

/// The integer that `s` writes: decimal digits after an optional `+`, or,
/// where negative numbers are allowed, after a `-`.
pub open spec fn integer_value(s: Seq<char>, signed: bool) -> Option<int> {
    if s.len() > 0 && s[0] == '+' && all_digits(s.drop_first()) {
        Some(digits_value(s.drop_first()))
    } else if signed && s.len() > 0 && s[0] == '-' && all_digits(s.drop_first()) {
        Some(-digits_value(s.drop_first()))
    } else if all_digits(s) {
        Some(digits_value(s))
    } else {
        None
    }
}

/// The integer that `s` writes, where it lies in `[min, max]`.
pub open spec fn integer_in(s: Seq<char>, min: int, max: int) -> Option<int> {
    match integer_value(s, min < 0) {
        Some(v) => if min <= v <= max {
            Some(v)
        } else {
            None
        },
        None => None,
    }
}

proof fn lemma_digits_value_nonneg(s: Seq<char>)
    requires
        forall|i: int| 0 <= i < s.len() ==> is_digit(#[trigger] s[i]),
    ensures
        digits_value(s) >= 0,
    decreases s.len(),
{
    if s.len() > 0 {
        lemma_digits_value_nonneg(s.drop_last());
    }
}

/// Reads the digits `cs[from..]` as a number, or gives `None` where they are
/// not all digits or the number exceeds `limit`.
fn read_digits(cs: &Vec<char>, from: usize, limit: u128) -> (r: Option<u128>)
    requires
        from <= cs.len(),
    ensures
        ({
            let d = cs@.skip(from as int);
            match r {
                Some(v) => all_digits(d) && v == digits_value(d) && v <= limit,
                None => !all_digits(d) || digits_value(d) > limit,
            }
        }),
{
    let len = cs.len();
    if from == len {
        return None;
    }
    let ghost d = cs@.skip(from as int);
    let mut acc: u128 = 0;
    let mut over = false;
    let mut k: usize = from;
    while k < len
        invariant
            from <= k <= len,
            len == cs.len(),
            d == cs@.skip(from as int),
            forall|i: int| 0 <= i < k - from ==> is_digit(#[trigger] d[i]),
            digits_value(d.take(k - from)) >= 0,
            over <==> digits_value(d.take(k - from)) > limit,
            !over ==> acc == digits_value(d.take(k - from)),
        decreases len - k,
    {
        let c = cs[k];
        if !('0' <= c && c <= '9') {
            assert(!is_digit(d[k - from]));
            return None;
        }
        let ghost p = d.take(k - from);
        let ghost q = d.take(k - from + 1);
        assert(q.drop_last() =~= p);
        let digit = (c as u32 - '0' as u32) as u128;
        if !over {
            if digit <= limit && acc <= (limit - digit) / 10 {
                assert(acc * 10 + digit <= limit) by (nonlinear_arith)
                    requires
                        digit <= limit,
                        acc <= (limit - digit) / 10,
                        0 <= acc,
                ;
                acc = acc * 10 + digit;
            } else {
                assert(acc * 10 + digit > limit) by (nonlinear_arith)
                    requires
                        digit > limit || acc > (limit - digit) / 10,
                        0 <= acc,
                        0 <= digit,
                ;
                over = true;
            }
        } else {
            assert(digits_value(p) * 10 + digit >= digits_value(p)) by (nonlinear_arith)
                requires
                    digits_value(p) >= 0,
                    0 <= digit,
            ;
        }
        k += 1;
    }
    assert(d.take(len - from) =~= d);
    if over {
        None
    } else {
        Some(acc)
    }
}

/// Parses an integer as `str::parse` does for an unsigned type with maximum
/// `max`.
pub fn parse_unsigned(input: &str, max: u128) -> (r: Option<u128>)
    ensures
        r matches Some(v) ==> integer_in(input@, 0, max as int) == Some(v as int),
        r is None ==> integer_in(input@, 0, max as int) is None,
{
    let cs = chars_of(input);
    let ghost s = input@;
    if cs.len() > 0 && cs[0] == '+' {
        assert(cs@.skip(1) =~= s.drop_first());
        proof {
            if all_digits(s.drop_first()) {
                lemma_digits_value_nonneg(s.drop_first());
            }
        }
        read_digits(&cs, 1, max)
    } else {
        assert(cs@.skip(0) =~= s);
        proof {
            if s.len() > 0 && !is_digit(s[0]) {
                assert(!all_digits(s));
            }
            if all_digits(s) {
                lemma_digits_value_nonneg(s);
            }
        }
        read_digits(&cs, 0, max)
    }
}

/// Parses an integer as `str::parse` does for a signed type with range
/// `[min, max]`.
pub fn parse_integer(input: &str, min: i128, max: i128) -> (r: Option<i128>)
    requires
        min <= 0 <= max,
    ensures
        r matches Some(v) ==> integer_in(input@, min as int, max as int) == Some(v as int),
        r is None ==> integer_in(input@, min as int, max as int) is None,
{
    let cs = chars_of(input);
    let ghost s = input@;
    if cs.len() > 0 && cs[0] == '+' {
        assert(cs@.skip(1) =~= s.drop_first());
        proof {
            if all_digits(s.drop_first()) {
                lemma_digits_value_nonneg(s.drop_first());
            }
        }
        match read_digits(&cs, 1, max as u128) {
            Some(v) => Some(v as i128),
            None => None,
        }
    } else if min < 0 && cs.len() > 0 && cs[0] == '-' {
        assert(cs@.skip(1) =~= s.drop_first());
        proof {
            if all_digits(s.drop_first()) {
                lemma_digits_value_nonneg(s.drop_first());
            }
        }
        let limit = (-(min + 1)) as u128 + 1;
        match read_digits(&cs, 1, limit) {
            Some(v) => if v > i128::MAX as u128 {
                Some(i128::MIN)
            } else {
                Some(-(v as i128))
            },
            None => None,
        }
    } else {
        assert(cs@.skip(0) =~= s);
        proof {
            if s.len() > 0 && !is_digit(s[0]) {
                assert(!all_digits(s));
            }
            if all_digits(s) {
                lemma_digits_value_nonneg(s);
            }
        }
        match read_digits(&cs, 0, max as u128) {
            Some(v) => Some(v as i128),
            None => None,
        }
    }
}

/// The truth value of a word in lower case: `true`, `yes` or `y`, or
/// `false`, `no` or `n`.
pub open spec fn flag_of(l: Seq<char>) -> Option<bool> {
    if l == "true"@ || l == "yes"@ || l == "y"@ {
        Some(true)
    } else if l == "false"@ || l == "no"@ || l == "n"@ {
        Some(false)
    } else {
        None
    }
}

/// The truth value that `s` writes: one of those words in any case, with
/// white space around it.
pub open spec fn flag_value(s: Seq<char>) -> Option<bool> {
    flag_of(lower_of(trimmed(s)))
}

/// The truth value of a word already in lower case and trimmed.
pub fn flag_of_lower(l: &str) -> (r: Option<bool>)
    ensures
        r == flag_of(l@),
{
    let l = l.to_owned();
    if l == "true".to_owned() || l == "yes".to_owned() || l == "y".to_owned() {
        Some(true)
    } else if l == "false".to_owned() || l == "no".to_owned() || l == "n".to_owned() {
        Some(false)
    } else {
        None
    }
}

/// Parses a truth value.
pub fn parse_flag(input: &str) -> (r: Option<bool>)
    ensures
        r == flag_value(input@),
{
    let t = trim(input);
    let l = lowercase(t.as_str());
    flag_of_lower(l.as_str())
}

/// The character that `s` writes: `s` must hold exactly one.
pub open spec fn char_value(s: Seq<char>) -> Option<char> {
    if s.len() == 1 {
        Some(s[0])
    } else {
        None
    }
}

/// Parses a single character.
pub fn parse_char(input: &str) -> (r: Option<char>)
    ensures
        r == char_value(input@),
{
    if input.unicode_len() == 1 {
        Some(input.get_char(0))
    } else {
        None
    }
}

/// Whether `input` names `name`: exactly, or, ignoring case, when both are
/// the same in lower case.
pub open spec fn name_matches(input: Seq<char>, name: Seq<char>, ignore_case: bool) -> bool {
    if ignore_case {
        lower_of(input) == lower_of(name)
    } else {
        input == name
    }
}

/// Whether `input` names one of `names`.
pub open spec fn names_one(input: Seq<char>, names: Seq<Seq<char>>, ignore_case: bool) -> bool {
    exists|i: int| 0 <= i < names.len() && name_matches(input, #[trigger] names[i], ignore_case)
}

/// The position of the first of `candidates` equal to `key`.
pub fn first_equal(key: &str, candidates: &Vec<String>) -> (r: Option<usize>)
    ensures
        match r {
            Some(i) => i < candidates.len() && candidates[i as int]@ == key@ && forall|j: int|
                0 <= j < i ==> (#[trigger] candidates[j])@ != key@,
            None => forall|j: int| 0 <= j < candidates.len() ==> (#[trigger] candidates[j])@ != key@,
        },
{
    let owned = key.to_owned();
    let mut i: usize = 0;
    while i < candidates.len()
        invariant
            owned@ == key@,
            i <= candidates.len(),
            forall|j: int| 0 <= j < i ==> (#[trigger] candidates[j])@ != key@,
        decreases candidates.len() - i,
    {
        if candidates[i] == owned {
            return Some(i);
        }
        i += 1;
    }
    None
}

/// The position of the first of `names` that `input` names.
pub fn choose_name(input: &str, names: &Vec<String>, ignore_case: bool) -> (r: Option<usize>)
    ensures
        match r {
            Some(i) => i < names.len() && name_matches(input@, names[i as int]@, ignore_case)
                && forall|j: int| 0 <= j < i ==> !name_matches(input@, #[trigger] names[j]@, ignore_case),
            None => forall|j: int|
                0 <= j < names.len() ==> !name_matches(input@, #[trigger] names[j]@, ignore_case),
        },
{
    if !ignore_case {
        return first_equal(input, names);
    }
    let folded = lowercase(input);
    let mut folded_names: Vec<String> = Vec::new();
    let mut i: usize = 0;
    while i < names.len()
        invariant
            i <= names.len(),
            folded_names.len() == i,
            forall|j: int| 0 <= j < i ==> (#[trigger] folded_names[j])@ == lower_of(names[j]@),
        decreases names.len() - i,
    {
        folded_names.push(lowercase(names[i].as_str()));
        i += 1;
    }
    let r = first_equal(folded.as_str(), &folded_names);
    proof {
        assert forall|j: int| 0 <= j < names.len() implies (#[trigger] names[j])@ == names[j]@ && folded_names[j]@ == lower_of(names[j]@) by {}
    }
    r
}

} // verus!
