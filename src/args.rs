//! Command arguments: the tokens of a text, values parsed from them, and
//! the layout of a command's fields.

use vstd::prelude::*;

use crate::context::{args_of, args_text};
use crate::error::{is_parse_error, GrammersthonError};
use crate::text::{
    chars_of, is_blank_char, lemma_after_word_len, lemma_skip_blanks_first, lemma_skip_blanks_len,
    lemma_skip_step, lemma_split_all, lemma_tokens_len, lemma_word_step, skip_blanks, after_word,
    split_spec, tokens, word,
};
use crate::values::{
    char_value, choose_name, flag_value, integer_in, name_matches, names_one, parse_char, parse_flag,
    parse_integer, parse_unsigned,
};

verus! {

/// The views of a list of strings.
pub open spec fn views(v: Seq<String>) -> Seq<Seq<char>> {
    v.map_values(|t: String| t@)
}

/// Tokens of a message, separated by white space.
#[derive(Debug, Clone, Default, PartialEq, Eq)]
pub struct RawArgs(pub Vec<String>);

impl View for RawArgs {
    type V = Seq<Seq<char>>;

    open spec fn view(&self) -> Seq<Seq<char>> {
        views(self.0@)
    }
}

impl RawArgs {
    /// Takes the first `count` tokens of `input` and returns them with the
    /// text that follows the separator after the last of them, spacing kept.
    pub fn parse_n(input: &str, count: usize) -> (r: (RawArgs, String))
        ensures
            (r.0@, r.1@) == split_spec(input@, count as nat),
    {
        if count == 0 {
            return (RawArgs(Vec::new()), input.to_owned());
        }
        let cs = chars_of(input);
        let len = cs.len();
        let ghost s = input@;
        let mut out: Vec<String> = Vec::new();
        let mut i: usize = 0;
        assert(s.skip(0) =~= s);
        loop
            invariant
                cs@ == s,
                s == input@,
                len == cs.len(),
                i <= len,
                out.len() < count,
                split_spec(s, count as nat) == (views(out@) + split_spec(
                    s.skip(i as int),
                    (count - out.len()) as nat,
                ).0, split_spec(s.skip(i as int), (count - out.len()) as nat).1),
            decreases len - i,
        {
            let ghost i0 = i as int;
            let ghost m = (count - out.len()) as nat;
            while i < len && is_blank_char(cs[i])
                invariant
                    cs@ == s,
                    len == cs.len(),
                    i0 <= i <= len,
                    skip_blanks(s.skip(i0)) == skip_blanks(s.skip(i as int)),
                decreases len - i,
            {
                proof {
                    lemma_skip_step(s, i as int);
                }
                i += 1;
            }
            proof {
                lemma_skip_step(s, i as int);
            }
            let start = i;
            if i == len {
                assert(s.skip(i as int) =~= Seq::<char>::empty());
                assert(views(out@) + Seq::<Seq<char>>::empty() =~= views(out@));
                return (RawArgs(out), String::new());
            }
            while i < len && !is_blank_char(cs[i])
                invariant
                    cs@ == s,
                    len == cs.len(),
                    start <= i <= len,
                    word(s.skip(start as int)) == s.subrange(start as int, i as int) + word(
                        s.skip(i as int),
                    ),
                    after_word(s.skip(start as int)) == after_word(s.skip(i as int)),
                decreases len - i,
            {
                proof {
                    lemma_word_step(s, i as int);
                    assert(s.subrange(start as int, i as int) + seq![s[i as int]] =~= s.subrange(
                        start as int,
                        i + 1,
                    ));
                }
                i += 1;
            }
            proof {
                lemma_word_step(s, i as int);
                assert(s.subrange(start as int, i as int) + Seq::<char>::empty() =~= s.subrange(
                    start as int,
                    i as int,
                ));
            }
            let tok = input.substring_char(start, i).to_owned();
            let ghost before = views(out@);
            out.push(tok);
            assert(views(out@) =~= before.push(tok@));
            if i == len {
                assert(s.skip(i as int) =~= Seq::<char>::empty());
                assert(before + seq![tok@] =~= views(out@));
                return (RawArgs(out), String::new());
            }
            assert(s.skip(i as int).drop_first() =~= s.skip(i + 1));
            i += 1;
            let ghost y = split_spec(s.skip(i as int), (m - 1) as nat);
            assert(before + (seq![tok@] + y.0) =~= views(out@) + y.0);
            if out.len() == count {
                let rest = input.substring_char(i, len).to_owned();
                assert(s.subrange(i as int, len as int) =~= s.skip(i as int));
                assert(views(out@) + Seq::<Seq<char>>::empty() =~= views(out@));
                return (RawArgs(out), rest);
            }
        }
    }

    /// All the tokens of `input`; this never fails.
    pub fn parse_all(input: &str) -> (r: Result<RawArgs, GrammersthonError>)
        ensures
            r matches Ok(a) && a@ == tokens(input@),
    {
        let n = input.unicode_len();
        let count = n / 2 + 2;
        proof {
            lemma_tokens_len(input@);
            lemma_split_all(input@, count as nat);
        }
        let (a, _rest) = RawArgs::parse_n(input, count);
        Ok(a)
    }
}

/// A value that can be parsed from the text of a command's arguments.
pub trait FromArgs: Sized {
    /// Whether `input` writes a value of this type. A type that does not
    /// say leaves it open.
    closed spec fn accepts(input: Seq<char>) -> bool {
        arbitrary()
    }

    /// Whether `v` is the value that `input` writes. A type that does not
    /// say leaves it open.
    closed spec fn parsed_as(input: Seq<char>, v: Self) -> bool {
        arbitrary()
    }

    /// Whether `e` is the error for the unparsable `input`. A type that does
    /// not say leaves it open.
    closed spec fn rejects_with(input: Seq<char>, e: GrammersthonError) -> bool {
        arbitrary()
    }

    /// Parses `input`, or reports it as unparsable.
    fn parse_arg(input: &str) -> (r: Result<Self, GrammersthonError>)
        ensures
            r is Ok <==> Self::accepts(input@),
            r matches Ok(v) ==> Self::parsed_as(input@, v),
            r matches Err(e) ==> e is Parse && Self::rejects_with(input@, e),
    ;
}

/// The error for text that does not parse.
fn parse_error(input: &str) -> (e: GrammersthonError)
    ensures
        is_parse_error(e, input@),
{
    GrammersthonError::Parse(input.to_owned(), None)
}

impl FromArgs for String {
    open spec fn accepts(input: Seq<char>) -> bool {
        true
    }

    open spec fn rejects_with(input: Seq<char>, e: GrammersthonError) -> bool {
        false
    }

    open spec fn parsed_as(input: Seq<char>, v: String) -> bool {
        v@ == input
    }

    fn parse_arg(input: &str) -> (r: Result<String, GrammersthonError>) {
        Ok(input.to_owned())
    }
}

impl FromArgs for bool {
    open spec fn accepts(input: Seq<char>) -> bool {
        flag_value(input) is Some
    }

    open spec fn rejects_with(input: Seq<char>, e: GrammersthonError) -> bool {
        is_parse_error(e, input)
    }

    open spec fn parsed_as(input: Seq<char>, v: bool) -> bool {
        flag_value(input) == Some(v)
    }

    fn parse_arg(input: &str) -> (r: Result<bool, GrammersthonError>) {
        match parse_flag(input) {
            Some(b) => Ok(b),
            None => Err(parse_error(input)),
        }
    }
}

impl FromArgs for char {
    open spec fn accepts(input: Seq<char>) -> bool {
        char_value(input) is Some
    }

    open spec fn rejects_with(input: Seq<char>, e: GrammersthonError) -> bool {
        is_parse_error(e, input)
    }

    open spec fn parsed_as(input: Seq<char>, v: char) -> bool {
        char_value(input) == Some(v)
    }

    fn parse_arg(input: &str) -> (r: Result<char, GrammersthonError>) {
        match parse_char(input) {
            Some(c) => Ok(c),
            None => Err(parse_error(input)),
        }
    }
}

impl FromArgs for u8 {
    open spec fn accepts(input: Seq<char>) -> bool {
        integer_in(input, 0 as int, u8::MAX as int) is Some
    }

    open spec fn parsed_as(input: Seq<char>, v: u8) -> bool {
        integer_in(input, 0 as int, u8::MAX as int) == Some(v as int)
    }

    open spec fn rejects_with(input: Seq<char>, e: GrammersthonError) -> bool {
        is_parse_error(e, input)
    }

    fn parse_arg(input: &str) -> (r: Result<u8, GrammersthonError>) {
        match parse_unsigned(input, u8::MAX as u128) {
            Some(v) => Ok(v as u8),
            None => Err(parse_error(input)),
        }
    }
}

impl FromArgs for u16 {
    open spec fn accepts(input: Seq<char>) -> bool {
        integer_in(input, 0 as int, u16::MAX as int) is Some
    }

    open spec fn parsed_as(input: Seq<char>, v: u16) -> bool {
        integer_in(input, 0 as int, u16::MAX as int) == Some(v as int)
    }

    open spec fn rejects_with(input: Seq<char>, e: GrammersthonError) -> bool {
        is_parse_error(e, input)
    }

    fn parse_arg(input: &str) -> (r: Result<u16, GrammersthonError>) {
        match parse_unsigned(input, u16::MAX as u128) {
            Some(v) => Ok(v as u16),
            None => Err(parse_error(input)),
        }
    }
}

impl FromArgs for u32 {
    open spec fn accepts(input: Seq<char>) -> bool {
        integer_in(input, 0 as int, u32::MAX as int) is Some
    }

    open spec fn parsed_as(input: Seq<char>, v: u32) -> bool {
        integer_in(input, 0 as int, u32::MAX as int) == Some(v as int)
    }

    open spec fn rejects_with(input: Seq<char>, e: GrammersthonError) -> bool {
        is_parse_error(e, input)
    }

    fn parse_arg(input: &str) -> (r: Result<u32, GrammersthonError>) {
        match parse_unsigned(input, u32::MAX as u128) {
            Some(v) => Ok(v as u32),
            None => Err(parse_error(input)),
        }
    }
}

impl FromArgs for u64 {
    open spec fn accepts(input: Seq<char>) -> bool {
        integer_in(input, 0 as int, u64::MAX as int) is Some
    }

    open spec fn parsed_as(input: Seq<char>, v: u64) -> bool {
        integer_in(input, 0 as int, u64::MAX as int) == Some(v as int)
    }

    open spec fn rejects_with(input: Seq<char>, e: GrammersthonError) -> bool {
        is_parse_error(e, input)
    }

    fn parse_arg(input: &str) -> (r: Result<u64, GrammersthonError>) {
        match parse_unsigned(input, u64::MAX as u128) {
            Some(v) => Ok(v as u64),
            None => Err(parse_error(input)),
        }
    }
}

impl FromArgs for u128 {
    open spec fn accepts(input: Seq<char>) -> bool {
        integer_in(input, 0 as int, u128::MAX as int) is Some
    }

    open spec fn parsed_as(input: Seq<char>, v: u128) -> bool {
        integer_in(input, 0 as int, u128::MAX as int) == Some(v as int)
    }

    open spec fn rejects_with(input: Seq<char>, e: GrammersthonError) -> bool {
        is_parse_error(e, input)
    }

    fn parse_arg(input: &str) -> (r: Result<u128, GrammersthonError>) {
        match parse_unsigned(input, u128::MAX as u128) {
            Some(v) => Ok(v as u128),
            None => Err(parse_error(input)),
        }
    }
}

impl FromArgs for usize {
    open spec fn accepts(input: Seq<char>) -> bool {
        integer_in(input, 0 as int, usize::MAX as int) is Some
    }

    open spec fn parsed_as(input: Seq<char>, v: usize) -> bool {
        integer_in(input, 0 as int, usize::MAX as int) == Some(v as int)
    }

    open spec fn rejects_with(input: Seq<char>, e: GrammersthonError) -> bool {
        is_parse_error(e, input)
    }

    fn parse_arg(input: &str) -> (r: Result<usize, GrammersthonError>) {
        match parse_unsigned(input, usize::MAX as u128) {
            Some(v) => Ok(v as usize),
            None => Err(parse_error(input)),
        }
    }
}

impl FromArgs for i8 {
    open spec fn accepts(input: Seq<char>) -> bool {
        integer_in(input, i8::MIN as int, i8::MAX as int) is Some
    }

    open spec fn parsed_as(input: Seq<char>, v: i8) -> bool {
        integer_in(input, i8::MIN as int, i8::MAX as int) == Some(v as int)
    }

    open spec fn rejects_with(input: Seq<char>, e: GrammersthonError) -> bool {
        is_parse_error(e, input)
    }

    fn parse_arg(input: &str) -> (r: Result<i8, GrammersthonError>) {
        match parse_integer(input, i8::MIN as i128, i8::MAX as i128) {
            Some(v) => Ok(v as i8),
            None => Err(parse_error(input)),
        }
    }
}

impl FromArgs for i16 {
    open spec fn accepts(input: Seq<char>) -> bool {
        integer_in(input, i16::MIN as int, i16::MAX as int) is Some
    }

    open spec fn parsed_as(input: Seq<char>, v: i16) -> bool {
        integer_in(input, i16::MIN as int, i16::MAX as int) == Some(v as int)
    }

    open spec fn rejects_with(input: Seq<char>, e: GrammersthonError) -> bool {
        is_parse_error(e, input)
    }

    fn parse_arg(input: &str) -> (r: Result<i16, GrammersthonError>) {
        match parse_integer(input, i16::MIN as i128, i16::MAX as i128) {
            Some(v) => Ok(v as i16),
            None => Err(parse_error(input)),
        }
    }
}

impl FromArgs for i32 {
    open spec fn accepts(input: Seq<char>) -> bool {
        integer_in(input, i32::MIN as int, i32::MAX as int) is Some
    }

    open spec fn parsed_as(input: Seq<char>, v: i32) -> bool {
        integer_in(input, i32::MIN as int, i32::MAX as int) == Some(v as int)
    }

    open spec fn rejects_with(input: Seq<char>, e: GrammersthonError) -> bool {
        is_parse_error(e, input)
    }

    fn parse_arg(input: &str) -> (r: Result<i32, GrammersthonError>) {
        match parse_integer(input, i32::MIN as i128, i32::MAX as i128) {
            Some(v) => Ok(v as i32),
            None => Err(parse_error(input)),
        }
    }
}

impl FromArgs for i64 {
    open spec fn accepts(input: Seq<char>) -> bool {
        integer_in(input, i64::MIN as int, i64::MAX as int) is Some
    }

    open spec fn parsed_as(input: Seq<char>, v: i64) -> bool {
        integer_in(input, i64::MIN as int, i64::MAX as int) == Some(v as int)
    }

    open spec fn rejects_with(input: Seq<char>, e: GrammersthonError) -> bool {
        is_parse_error(e, input)
    }

    fn parse_arg(input: &str) -> (r: Result<i64, GrammersthonError>) {
        match parse_integer(input, i64::MIN as i128, i64::MAX as i128) {
            Some(v) => Ok(v as i64),
            None => Err(parse_error(input)),
        }
    }
}

impl FromArgs for i128 {
    open spec fn accepts(input: Seq<char>) -> bool {
        integer_in(input, i128::MIN as int, i128::MAX as int) is Some
    }

    open spec fn parsed_as(input: Seq<char>, v: i128) -> bool {
        integer_in(input, i128::MIN as int, i128::MAX as int) == Some(v as int)
    }

    open spec fn rejects_with(input: Seq<char>, e: GrammersthonError) -> bool {
        is_parse_error(e, input)
    }

    fn parse_arg(input: &str) -> (r: Result<i128, GrammersthonError>) {
        match parse_integer(input, i128::MIN as i128, i128::MAX as i128) {
            Some(v) => Ok(v as i128),
            None => Err(parse_error(input)),
        }
    }
}

impl FromArgs for isize {
    open spec fn accepts(input: Seq<char>) -> bool {
        integer_in(input, isize::MIN as int, isize::MAX as int) is Some
    }

    open spec fn parsed_as(input: Seq<char>, v: isize) -> bool {
        integer_in(input, isize::MIN as int, isize::MAX as int) == Some(v as int)
    }

    open spec fn rejects_with(input: Seq<char>, e: GrammersthonError) -> bool {
        is_parse_error(e, input)
    }

    fn parse_arg(input: &str) -> (r: Result<isize, GrammersthonError>) {
        match parse_integer(input, isize::MIN as i128, isize::MAX as i128) {
            Some(v) => Ok(v as isize),
            None => Err(parse_error(input)),
        }
    }
}

#[verifier::external_type_specification]
#[verifier::external_body]
pub struct ExPathBuf(std::path::PathBuf);

/// The path that `PathBuf::from` makes of a text.
pub uninterp spec fn path_of(s: Seq<char>) -> std::path::PathBuf;

/// Relies on `std::path::PathBuf::from`, which takes any text as a path,
/// depends on the text alone, and cannot fail.
#[verifier::external_body]
fn path_from(input: &str) -> (r: std::path::PathBuf)
    ensures
        r == path_of(input@),
{
    std::path::PathBuf::from(input)
}

/// A path: any text is one.
impl FromArgs for std::path::PathBuf {
    open spec fn accepts(input: Seq<char>) -> bool {
        true
    }

    open spec fn parsed_as(input: Seq<char>, v: std::path::PathBuf) -> bool {
        v == path_of(input)
    }

    open spec fn rejects_with(input: Seq<char>, e: GrammersthonError) -> bool {
        false
    }

    fn parse_arg(input: &str) -> (r: Result<std::path::PathBuf, GrammersthonError>) {
        Ok(path_from(input))
    }
}

impl FromArgs for RawArgs {
    open spec fn accepts(input: Seq<char>) -> bool {
        true
    }

    open spec fn rejects_with(input: Seq<char>, e: GrammersthonError) -> bool {
        false
    }

    open spec fn parsed_as(input: Seq<char>, v: RawArgs) -> bool {
        v@ == tokens(input)
    }

    fn parse_arg(input: &str) -> (r: Result<RawArgs, GrammersthonError>) {
        RawArgs::parse_all(input)
    }
}

impl<T: FromArgs> FromArgs for Vec<T> {
    open spec fn accepts(input: Seq<char>) -> bool {
        forall|i: int| 0 <= i < tokens(input).len() ==> T::accepts(#[trigger] tokens(input)[i])
    }

    open spec fn parsed_as(input: Seq<char>, v: Vec<T>) -> bool {
        &&& v.len() == tokens(input).len()
        &&& forall|i: int|
            0 <= i < v.len() ==> T::parsed_as(#[trigger] tokens(input)[i], v[i])
    }

    /// The error is that of the first token that does not parse.
    open spec fn rejects_with(input: Seq<char>, e: GrammersthonError) -> bool {
        exists|j: int|
            0 <= j < tokens(input).len() && (forall|i: int|
                0 <= i < j ==> T::accepts(#[trigger] tokens(input)[i])) && !T::accepts(
                tokens(input)[j],
            ) && T::rejects_with(#[trigger] tokens(input)[j], e)
    }

    fn parse_arg(input: &str) -> (r: Result<Vec<T>, GrammersthonError>) {
        let parts = match RawArgs::parse_all(input) {
            Ok(a) => a.0,
            Err(_) => Vec::new(),
        };
        let ghost toks = tokens(input@);
        let mut out: Vec<T> = Vec::new();
        let mut i: usize = 0;
        while i < parts.len()
            invariant
                toks == tokens(input@),
                views(parts@) == toks,
                i <= parts.len(),
                out.len() == i,
                forall|j: int| 0 <= j < i ==> T::accepts(#[trigger] toks[j]),
                forall|j: int| 0 <= j < i ==> T::parsed_as(#[trigger] toks[j], out[j]),
            decreases parts.len() - i,
        {
            assert(toks[i as int] == parts[i as int]@);
            match T::parse_arg(parts[i].as_str()) {
                Ok(v) => out.push(v),
                Err(e) => {
                    assert(toks.len() == parts.len());
                    assert(!T::accepts(toks[i as int]));
                    assert(T::rejects_with(toks[i as int], e));
                    return Err(e);
                },
            }
            i += 1;
        }
        Ok(out)
    }
}

/// Arguments of a command, parsed from the text after the command's name.
pub struct Args<A>(pub A);

impl<A: FromArgs> Args<A> {
    /// Parses the arguments of the command `text`: what follows its first
    /// white space. Gives nothing when they do not parse.
    pub fn from_text(text: &str) -> (r: Option<Args<A>>)
        ensures
            r is Some <==> A::accepts(args_text(text@)),
            r matches Some(a) ==> A::parsed_as(args_text(text@), a.0),
    {
        let rest = args_of(text);
        match A::parse_arg(rest.as_str()) {
            Ok(a) => Some(Args(a)),
            Err(_) => None,
        }
    }
}

impl RawArgs {
    /// The tokens of the arguments of the command `text`.
    pub fn from_text(text: &str) -> (r: RawArgs)
        ensures
            r@ == tokens(args_text(text@)),
    {
        let rest = args_of(text);
        match RawArgs::parse_all(rest.as_str()) {
            Ok(a) => a,
            Err(_) => RawArgs(Vec::new()),
        }
    }
}

/// How many tokens a structure with `fields` fields takes from the front of
/// its text: one per field, but none for a last field that takes the rest.
pub open spec fn token_fields(fields: nat, rest: bool) -> nat {
    if rest && fields > 0 {
        (fields - 1) as nat
    } else {
        fields
    }
}

/// Splits `input` for a structure of `fields` fields, the last of which takes
/// the rest of the text when `rest` holds: one token per other field, and the
/// rest. Fails when there are fewer tokens than such fields.
pub fn bind_fields(input: &str, fields: usize, rest: bool) -> (r: Result<
    (RawArgs, String),
    GrammersthonError,
>)
    ensures
        ({
            let (toks, tail) = split_spec(input@, token_fields(fields as nat, rest));
            match r {
                Ok((a, t)) => toks.len() == token_fields(fields as nat, rest) && a@ == toks && t@
                    == tail,
                Err(e) => toks.len() < token_fields(fields as nat, rest) && is_parse_error(
                    e,
                    input@,
                ),
            }
        }),
{
    let n = if rest && fields > 0 {
        fields - 1
    } else {
        fields
    };
    let (a, t) = RawArgs::parse_n(input, n);
    proof {
        lemma_split_count(input@, n as nat);
    }
    if a.0.len() < n {
        Err(parse_error(input))
    } else {
        Ok((a, t))
    }
}

/// A split never yields more tokens than were asked for.
pub proof fn lemma_split_count(s: Seq<char>, n: nat)
    ensures
        split_spec(s, n).0.len() <= n,
    decreases s.len(),
{
    if n > 0 {
        let t = skip_blanks(s);
        lemma_skip_blanks_len(s);
        if t.len() > 0 {
            let a = after_word(t);
            lemma_skip_blanks_first(s);
            lemma_after_word_len(t);
            if a.len() > 0 {
                lemma_split_count(a.drop_first(), (n - 1) as nat);
            }
        }
    }
}

/// The kind of a single value in a command's arguments.
#[derive(Clone)]
pub enum ScalarKind {
    /// Any text, taken as it is.
    Text,
    /// A truth value.
    Flag,
    /// An integer in `[min, max]`, a range that holds zero.
    Integer { min: i128, max: i128 },
    /// A non-negative integer up to `max`.
    Natural { max: u128 },
    /// A single character.
    Character,
    /// One of the names, exactly or ignoring case.
    Choice { names: Vec<String>, ignore_case: bool },
}

/// The kind of a field of a command's arguments.
#[derive(Clone)]
pub enum FieldKind {
    /// One value.
    One(ScalarKind),
    /// A list of values, one per token.
    Many(ScalarKind),
}

/// The layout of a command's arguments: its fields in order, the last of
/// which takes the rest of the text when `rest` holds.
#[derive(Clone)]
pub struct ArgShape {
    pub fields: Vec<FieldKind>,
    pub rest: bool,
}

impl ScalarKind {
    /// An integer range holds zero, as the range of every integer type does.
    pub open spec fn wf(&self) -> bool {
        match self {
            ScalarKind::Integer { min, max } => *min <= 0 <= *max,
            _ => true,
        }
    }

    /// Whether an integer range holds zero.
    pub fn is_wf(&self) -> (r: bool)
        ensures
            r == self.wf(),
    {
        match self {
            ScalarKind::Integer { min, max } => *min <= 0 && 0 <= *max,
            _ => true,
        }
    }

    /// Whether `s` writes a value of this kind.
    pub open spec fn accepts(&self, s: Seq<char>) -> bool {
        match self {
            ScalarKind::Text => true,
            ScalarKind::Flag => flag_value(s) is Some,
            ScalarKind::Integer { min, max } => integer_in(s, *min as int, *max as int) is Some,
            ScalarKind::Natural { max } => integer_in(s, 0, *max as int) is Some,
            ScalarKind::Character => char_value(s) is Some,
            ScalarKind::Choice { names, ignore_case } => names_one(s, views(names@), *ignore_case),
        }
    }

    /// Whether `input` writes a value of this kind.
    pub fn check(&self, input: &str) -> (r: bool)
        requires
            self.wf(),
        ensures
            r == self.accepts(input@),
    {
        match self {
            ScalarKind::Text => true,
            ScalarKind::Flag => parse_flag(input).is_some(),
            ScalarKind::Integer { min, max } => parse_integer(input, *min, *max).is_some(),
            ScalarKind::Natural { max } => parse_unsigned(input, *max).is_some(),
            ScalarKind::Character => parse_char(input).is_some(),
            ScalarKind::Choice { names, ignore_case } => {
                let r = choose_name(input, names, *ignore_case);
                proof {
                    if let Some(i) = r {
                        assert(views(names@)[i as int] == names@[i as int]@);
                    } else {
                        assert forall|j: int| 0 <= j < views(names@).len() implies !name_matches(
                            input@,
                            #[trigger] views(names@)[j],
                            *ignore_case,
                        ) by {
                            assert(views(names@)[j] == names@[j]@);
                        }
                    }
                }
                r.is_some()
            },
        }
    }
}

impl FieldKind {
    pub open spec fn wf(&self) -> bool {
        match self {
            FieldKind::One(k) => k.wf(),
            FieldKind::Many(k) => k.wf(),
        }
    }

    /// Whether the field's kind is well formed.
    pub fn is_wf(&self) -> (r: bool)
        ensures
            r == self.wf(),
    {
        match self {
            FieldKind::One(k) => k.is_wf(),
            FieldKind::Many(k) => k.is_wf(),
        }
    }

    /// Whether `s` writes a value of this field: one value, or one per token.
    pub open spec fn accepts(&self, s: Seq<char>) -> bool {
        match self {
            FieldKind::One(k) => k.accepts(s),
            FieldKind::Many(k) => forall|i: int|
                0 <= i < tokens(s).len() ==> k.accepts(#[trigger] tokens(s)[i]),
        }
    }

    /// Whether `input` writes a value of this field.
    pub fn check(&self, input: &str) -> (r: bool)
        requires
            self.wf(),
        ensures
            r == self.accepts(input@),
    {
        match self {
            FieldKind::One(k) => k.check(input),
            FieldKind::Many(k) => {
                let parts = match RawArgs::parse_all(input) {
                    Ok(a) => a.0,
                    Err(_) => return false,
                };
                let ghost toks = tokens(input@);
                let mut i: usize = 0;
                while i < parts.len()
                    invariant
                        toks == tokens(input@),
                        views(parts@) == toks,
                        *self == FieldKind::Many(*k),
                        k.wf(),
                        i <= parts.len(),
                        forall|j: int| 0 <= j < i ==> k.accepts(#[trigger] toks[j]),
                    decreases parts.len() - i,
                {
                    assert(toks.len() == parts.len());
                    assert(toks[i as int] == parts[i as int]@);
                    if !k.check(parts[i].as_str()) {
                        assert(!k.accepts(toks[i as int]));
                        return false;
                    }
                    i += 1;
                }
                true
            },
        }
    }
}

impl ArgShape {
    pub open spec fn wf(&self) -> bool {
        forall|i: int| 0 <= i < self.fields.len() ==> (#[trigger] self.fields[i]).wf()
    }

    /// Whether every field is well formed.
    pub fn is_wf(&self) -> (r: bool)
        ensures
            r == self.wf(),
    {
        let mut i: usize = 0;
        while i < self.fields.len()
            invariant
                i <= self.fields.len(),
                forall|j: int| 0 <= j < i ==> (#[trigger] self.fields[j]).wf(),
            decreases self.fields.len() - i,
        {
            if !self.fields[i].is_wf() {
                return false;
            }
            i += 1;
        }
        true
    }

    /// Whether `s` fills every field: enough tokens, each of the right kind,
    /// and a rest of the right kind for a last field that takes it.
    pub open spec fn accepts(&self, s: Seq<char>) -> bool {
        let n = token_fields(self.fields.len() as nat, self.rest);
        let (toks, tail) = split_spec(s, n);
        &&& toks.len() == n
        &&& forall|i: int| 0 <= i < n ==> (#[trigger] self.fields[i]).accepts(toks[i])
        &&& (self.rest && self.fields.len() > 0) ==> self.fields@.last().accepts(tail)
    }

    /// Whether `input` fills every field.
    pub fn check(&self, input: &str) -> (r: bool)
        requires
            self.wf(),
        ensures
            r == self.accepts(input@),
    {
        let (toks, tail) = match bind_fields(input, self.fields.len(), self.rest) {
            Ok(b) => b,
            Err(_) => return false,
        };
        let n = toks.0.len();
        let ghost split = split_spec(input@, token_fields(self.fields.len() as nat, self.rest));
        let mut i: usize = 0;
        while i < n
            invariant
                self.wf(),
                n == toks.0.len(),
                n == token_fields(self.fields.len() as nat, self.rest),
                split == split_spec(input@, n as nat),
                toks@ == split.0,
                i <= n,
                forall|j: int| 0 <= j < i ==> (#[trigger] self.fields[j]).accepts(split.0[j]),
            decreases n - i,
        {
            assert(split.0[i as int] == toks.0[i as int]@);
            if !self.fields[i].check(toks.0[i].as_str()) {
                return false;
            }
            i += 1;
        }
        if self.rest && self.fields.len() > 0 {
            self.fields[self.fields.len() - 1].check(tail.as_str())
        } else {
            true
        }
    }
}

} // verus!
