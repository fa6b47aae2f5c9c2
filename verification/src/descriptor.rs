//! Parser and formatter for the structured change descriptor that the CI
//! server embeds in a build's display name.
//!
//! The grammar is fixed: a leading `#` marker, then five tokens each ended by
//! a single space — sequence number, repository, branch, change ID and
//! revision — and finally the author, which is the whole remainder of the
//! string. The three numeric fields must be non-negative base-10 integers
//! that fit in `usize`; otherwise the whole parse fails with the single error
//! kind `MalformedDescriptor`, and no partial descriptor is ever produced.

use vstd::prelude::*;

verus! {

/// The single parse-time error: the display name does not follow the
/// descriptor grammar. Callers only need pass/fail, so no attempt is made to
/// say which field failed.
#[derive(Debug, Clone, Copy, PartialEq, Eq, Structural)]
pub enum ParseError {
    MalformedDescriptor,
}

/// A change descriptor carried by a build's display name. Constructed only
/// by successfully parsing such a name.
#[derive(Debug, Clone)]
pub struct ChangeDescriptor {
    pub sequence_number: usize,
    pub repository: String,
    pub branch: String,
    pub change_id: usize,
    pub revision: usize,
    pub author: String,
}

/// The mathematical value of a descriptor: unbounded integers and character
/// sequences.
pub ghost struct DescriptorView {
    pub sequence_number: int,
    pub repository: Seq<char>,
    pub branch: Seq<char>,
    pub change_id: int,
    pub revision: int,
    pub author: Seq<char>,
}

impl View for ChangeDescriptor {
    type V = DescriptorView;

    open spec fn view(&self) -> DescriptorView {
        DescriptorView {
            sequence_number: self.sequence_number as int,
            repository: self.repository@,
            branch: self.branch@,
            change_id: self.change_id as int,
            revision: self.revision as int,
            author: self.author@,
        }
    }
}

impl PartialEq for ChangeDescriptor {
    fn eq(&self, other: &Self) -> (r: bool) {
        self.sequence_number == other.sequence_number && self.repository == other.repository
            && self.branch == other.branch && self.change_id == other.change_id
            && self.revision == other.revision && self.author == other.author
    }
}

impl vstd::std_specs::cmp::PartialEqSpecImpl for ChangeDescriptor {
    open spec fn obeys_eq_spec() -> bool {
        true
    }

    open spec fn eq_spec(&self, other: &Self) -> bool {
        self@ == other@
    }
}

/// A decimal digit `'0'` through `'9'`.
pub open spec fn is_digit(c: char) -> bool {
    48 <= c as int <= 57
}

/// The numeric value of a decimal digit.
pub open spec fn digit_val(c: char) -> int {
    c as int - 48
}

/// Every character of `s` is a decimal digit.
pub open spec fn all_digits(s: Seq<char>) -> bool {
    forall|i: int| 0 <= i < s.len() ==> is_digit(#[trigger] s[i])
}

/// The value of `s` read as a base-10 numeral.
pub open spec fn dec_value(s: Seq<char>) -> int
    decreases s.len(),
{
    if s.len() == 0 {
        0
    } else {
        dec_value(s.drop_last()) * 10 + digit_val(s.last())
    }
}

/// `s` is a numeral the parser accepts for a numeric field: non-empty, all
/// digits, and with a value that fits in `usize`.
pub open spec fn is_number_token(s: Seq<char>) -> bool {
    s.len() > 0 && all_digits(s) && dec_value(s) <= usize::MAX as int
}

/// The decimal digit character for a value below ten.
pub open spec fn digit_char(d: int) -> char
    recommends
        0 <= d < 10,
{
    if d == 0 {
        '0'
    } else if d == 1 {
        '1'
    } else if d == 2 {
        '2'
    } else if d == 3 {
        '3'
    } else if d == 4 {
        '4'
    } else if d == 5 {
        '5'
    } else if d == 6 {
        '6'
    } else if d == 7 {
        '7'
    } else if d == 8 {
        '8'
    } else {
        '9'
    }
}

/// The canonical base-10 numeral of a non-negative integer, without leading
/// zeros (a single `'0'` for zero).
pub open spec fn dec_digits(n: int) -> Seq<char>
    recommends
        n >= 0,
    decreases n,
{
    if n < 10 {
        seq![digit_char(n)]
    } else {
        dec_digits(n / 10).push(digit_char(n % 10))
    }
}

/// The index of the first space at or after `from`, if any.
pub open spec fn first_space_at(s: Seq<char>, from: int) -> Option<int>
    decreases s.len() - from,
{
    if from < 0 || from >= s.len() {
        None
    } else if s[from] == ' ' {
        Some(from)
    } else {
        first_space_at(s, from + 1)
    }
}

/// The next space-ended token starting at `from`: the token's characters and
/// the position just past its delimiter.
pub open spec fn next_token(s: Seq<char>, from: int) -> Option<(Seq<char>, int)> {
    match first_space_at(s, from) {
        Some(i) => Some((s.subrange(from, i), i + 1)),
        None => None,
    }
}

/// What the grammar gives for a display name: the descriptor's value, or
/// nothing when the name is malformed.
pub open spec fn spec_parse(s: Seq<char>) -> Option<DescriptorView> {
    if s.len() == 0 || s[0] != '#' {
        None
    } else {
        match next_token(s, 1) {
            None => None,
            Some((t1, p1)) => match next_token(s, p1) {
                None => None,
                Some((t2, p2)) => match next_token(s, p2) {
                    None => None,
                    Some((t3, p3)) => match next_token(s, p3) {
                        None => None,
                        Some((t4, p4)) => match next_token(s, p4) {
                            None => None,
                            Some((t5, p5)) => if is_number_token(t1) && is_number_token(t4)
                                && is_number_token(t5) {
                                Some(
                                    DescriptorView {
                                        sequence_number: dec_value(t1),
                                        repository: t2,
                                        branch: t3,
                                        change_id: dec_value(t4),
                                        revision: dec_value(t5),
                                        author: s.subrange(p5, s.len() as int),
                                    },
                                )
                            } else {
                                None
                            },
                        },
                    },
                },
            },
        }
    }
}

/// `s` holds no space, so it survives tokenization unchanged.
pub open spec fn space_free(s: Seq<char>) -> bool {
    forall|i: int| 0 <= i < s.len() ==> #[trigger] s[i] != ' '
}

/// A descriptor value that the grammar can carry: numeric fields that fit in
/// `usize`, and no space inside the repository or branch names. (The author
/// is the final field and may hold anything, spaces included.)
pub open spec fn wf_descriptor(v: DescriptorView) -> bool {
    &&& 0 <= v.sequence_number <= usize::MAX as int
    &&& 0 <= v.change_id <= usize::MAX as int
    &&& 0 <= v.revision <= usize::MAX as int
    &&& space_free(v.repository)
    &&& space_free(v.branch)
}

/// The display name that carries a descriptor value: the `#` marker, the
/// five space-ended fields, then the author.
pub open spec fn spec_format(v: DescriptorView) -> Seq<char> {
    seq!['#'] + dec_digits(v.sequence_number) + seq![' '] + v.repository + seq![' '] + v.branch
        + seq![' '] + dec_digits(v.change_id) + seq![' '] + dec_digits(v.revision) + seq![' ']
        + v.author
}

proof fn lemma_dec_value_nonneg(s: Seq<char>)
    requires
        all_digits(s),
    ensures
        dec_value(s) >= 0,
    decreases s.len(),
{
    if s.len() > 0 {
        assert(forall|i: int|
            0 <= i < s.drop_last().len() ==> is_digit(#[trigger] s.drop_last()[i]));
        lemma_dec_value_nonneg(s.drop_last());
    }
}

proof fn lemma_dec_value_prefix_le(s: Seq<char>, j: int)
    requires
        all_digits(s),
        0 <= j <= s.len(),
    ensures
        dec_value(s.subrange(0, j)) <= dec_value(s),
    decreases s.len() - j,
{
    if j == s.len() {
        assert(s.subrange(0, j) =~= s);
    } else {
        let p = s.subrange(0, j);
        let q = s.subrange(0, j + 1);
        assert(q.drop_last() =~= p);
        assert(q.last() == s[j]);
        assert(forall|i: int| 0 <= i < p.len() ==> is_digit(#[trigger] p[i]));
        lemma_dec_value_nonneg(p);
        assert(dec_value(q) == dec_value(p) * 10 + digit_val(s[j]));
        lemma_dec_value_prefix_le(s, j + 1);
    }
}

proof fn lemma_digit_char_val(d: int)
    requires
        0 <= d < 10,
    ensures
        digit_val(digit_char(d)) == d,
        is_digit(digit_char(d)),
{
}

/// A canonical numeral is non-empty and all digits.
proof fn lemma_dec_digits_shape(n: int)
    requires
        n >= 0,
    ensures
        dec_digits(n).len() >= 1,
        all_digits(dec_digits(n)),
    decreases n,
{
    if n < 10 {
        lemma_digit_char_val(n);
        assert(dec_digits(n) =~= seq![digit_char(n)]);
        assert(forall|i: int| 0 <= i < 1 ==> is_digit(#[trigger] dec_digits(n)[i]));
    } else {
        lemma_dec_digits_shape(n / 10);
        lemma_digit_char_val(n % 10);
        let s = dec_digits(n);
        let p = dec_digits(n / 10);
        assert(s == p.push(digit_char(n % 10)));
        assert(forall|i: int| 0 <= i < s.len() ==> is_digit(#[trigger] s[i])) by {
            assert(forall|i: int| 0 <= i < p.len() ==> #[trigger] s[i] == p[i]);
            assert(s[s.len() - 1] == digit_char(n % 10));
        }
    }
}

/// Reading back the canonical numeral of a number gives the number.
proof fn lemma_dec_digits_value(n: int)
    requires
        n >= 0,
    ensures
        dec_value(dec_digits(n)) == n,
    decreases n,
{
    lemma_digit_char_val(if n < 10 { n } else { n % 10 });
    if n < 10 {
        let s = dec_digits(n);
        assert(s.len() == 1);
        assert(s.drop_last() =~= Seq::<char>::empty());
        assert(dec_value(Seq::<char>::empty()) == 0);
        assert(s.last() == digit_char(n));
    } else {
        lemma_dec_digits_value(n / 10);
        let s = dec_digits(n);
        let p = dec_digits(n / 10);
        assert(s == p.push(digit_char(n % 10)));
        assert(s.drop_last() =~= p);
        assert(s.last() == digit_char(n % 10));
        assert(dec_value(s) == (n / 10) * 10 + n % 10);
    }
}

/// Digits are not spaces, so a numeral survives tokenization.
proof fn lemma_digits_space_free(s: Seq<char>)
    requires
        all_digits(s),
    ensures
        space_free(s),
{
    assert(' ' as int == 32);
    assert(forall|i: int| 0 <= i < s.len() ==> #[trigger] s[i] != ' ') by {
        assert(forall|i: int| 0 <= i < s.len() ==> is_digit(#[trigger] s[i]));
    }
}

/// When nothing in `[from, k)` is a space and `s[k]` is one, `k` is the
/// first space at or after `from`.
proof fn lemma_first_space_found(s: Seq<char>, from: int, k: int)
    requires
        0 <= from <= k < s.len(),
        forall|j: int| from <= j < k ==> #[trigger] s[j] != ' ',
        s[k] == ' ',
    ensures
        first_space_at(s, from) == Some(k),
    decreases k - from,
{
    if from < k {
        lemma_first_space_found(s, from + 1, k);
    }
}

/// A space-free stretch followed by a space reads back as one token.
proof fn lemma_token_at(s: Seq<char>, from: int, t: Seq<char>)
    requires
        0 <= from,
        from + t.len() < s.len(),
        space_free(t),
        s.subrange(from, from + t.len()) == t,
        s[from + t.len()] == ' ',
    ensures
        next_token(s, from) == Some((t, from + t.len() + 1)),
{
    assert(forall|j: int| from <= j < from + t.len() ==> #[trigger] s[j] != ' ') by {
        assert(forall|j: int|
            from <= j < from + t.len() ==> #[trigger] s[j] == t[j - from] && t[j - from] != ' ');
    }
    lemma_first_space_found(s, from, from + t.len());
}

/// A name that is empty or does not open with the `#` marker is rejected:
/// the grammar gives it no descriptor, so parsing it yields
/// `MalformedDescriptor` and never a partial result.
pub proof fn lemma_missing_marker_rejected(s: Seq<char>)
    requires
        s.len() == 0 || s[0] != '#',
    ensures
        spec_parse(s) is None,
{
}

/// The number of spaces at or after index `from`.
pub open spec fn space_count(s: Seq<char>, from: int) -> int
    decreases s.len() - from,
{
    if from < 0 || from >= s.len() {
        0
    } else if s[from] == ' ' {
        1 + space_count(s, from + 1)
    } else {
        space_count(s, from + 1)
    }
}

proof fn lemma_space_count_nonneg(s: Seq<char>, from: int)
    ensures
        space_count(s, from) >= 0,
    decreases s.len() - from,
{
    if 0 <= from < s.len() {
        lemma_space_count_nonneg(s, from + 1);
    }
}

proof fn lemma_space_count_through_token(s: Seq<char>, from: int)
    requires
        first_space_at(s, from) is Some,
    ensures
        space_count(s, from) == 1 + space_count(s, first_space_at(s, from)->Some_0 + 1),
    decreases s.len() - from,
{
    let i = first_space_at(s, from)->Some_0;
    if s[from] != ' ' {
        lemma_space_count_through_token(s, from + 1);
    }
}

/// A name with a missing field is rejected: each of the five leading fields
/// needs its own space delimiter, so a name with fewer than five spaces
/// parses to nothing.
pub proof fn lemma_missing_field_rejected(s: Seq<char>)
    requires
        space_count(s, 0) < 5,
    ensures
        spec_parse(s) is None,
{
    if s.len() > 0 && s[0] == '#' {
        assert(space_count(s, 0) == space_count(s, 1));
        if next_token(s, 1) is Some {
            let t1 = next_token(s, 1)->Some_0;
            lemma_space_count_through_token(s, 1);
            if next_token(s, t1.1) is Some {
                let t2 = next_token(s, t1.1)->Some_0;
                lemma_space_count_through_token(s, t1.1);
                if next_token(s, t2.1) is Some {
                    let t3 = next_token(s, t2.1)->Some_0;
                    lemma_space_count_through_token(s, t2.1);
                    if next_token(s, t3.1) is Some {
                        let t4 = next_token(s, t3.1)->Some_0;
                        lemma_space_count_through_token(s, t3.1);
                        if next_token(s, t4.1) is Some {
                            let t5 = next_token(s, t4.1)->Some_0;
                            lemma_space_count_through_token(s, t4.1);
                            lemma_space_count_nonneg(s, t5.1);
                        }
                    }
                }
            }
        }
    }
}

/// No partial descriptor: whenever the grammar yields a descriptor at all,
/// its numeric fields came from digit-only tokens, so they are non-negative
/// and fit in `usize`.
pub proof fn lemma_no_partial_descriptor(s: Seq<char>)
    requires
        spec_parse(s) is Some,
    ensures
        ({
            let v = spec_parse(s)->Some_0;
            &&& 0 <= v.sequence_number <= usize::MAX as int
            &&& 0 <= v.change_id <= usize::MAX as int
            &&& 0 <= v.revision <= usize::MAX as int
        }),
{
    let t1 = next_token(s, 1)->Some_0;
    let t4 = next_token(s, next_token(s, next_token(s, t1.1)->Some_0.1)->Some_0.1)->Some_0;
    let t5 = next_token(s, t4.1)->Some_0;
    lemma_dec_value_nonneg(t1.0);
    lemma_dec_value_nonneg(t4.0);
    lemma_dec_value_nonneg(t5.0);
}

/// The round-trip law: formatting any well-formed descriptor value — numeric
/// fields that fit in `usize`, no space inside the repository or branch
/// names, an arbitrary author — and parsing the result gives the same value
/// back.
pub proof fn lemma_format_parse_round_trip(v: DescriptorView)
    requires
        wf_descriptor(v),
    ensures
        spec_parse(spec_format(v)) == Some(v),
{
    let s = spec_format(v);
    let d1 = dec_digits(v.sequence_number);
    let d4 = dec_digits(v.change_id);
    let d5 = dec_digits(v.revision);
    lemma_dec_digits_shape(v.sequence_number);
    lemma_dec_digits_shape(v.change_id);
    lemma_dec_digits_shape(v.revision);
    lemma_dec_digits_value(v.sequence_number);
    lemma_dec_digits_value(v.change_id);
    lemma_dec_digits_value(v.revision);
    lemma_digits_space_free(d1);
    lemma_digits_space_free(d4);
    lemma_digits_space_free(d5);
    let e1 = 1 + d1.len() as int;
    let q2 = e1 + 1;
    let e2 = q2 + v.repository.len() as int;
    let q3 = e2 + 1;
    let e3 = q3 + v.branch.len() as int;
    let q4 = e3 + 1;
    let e4 = q4 + d4.len() as int;
    let q5 = e4 + 1;
    let e5 = q5 + d5.len() as int;
    let q6 = e5 + 1;
    assert(s.len() == q6 + v.author.len());
    assert(s[0] == '#');
    assert(s.subrange(1, e1) =~= d1);
    assert(s[e1] == ' ');
    lemma_token_at(s, 1, d1);
    assert(s.subrange(q2, e2) =~= v.repository);
    assert(s[e2] == ' ');
    lemma_token_at(s, q2, v.repository);
    assert(s.subrange(q3, e3) =~= v.branch);
    assert(s[e3] == ' ');
    lemma_token_at(s, q3, v.branch);
    assert(s.subrange(q4, e4) =~= d4);
    assert(s[e4] == ' ');
    lemma_token_at(s, q4, d4);
    assert(s.subrange(q5, e5) =~= d5);
    assert(s[e5] == ' ');
    lemma_token_at(s, q5, d5);
    assert(s.subrange(q6, s.len() as int) =~= v.author);
    assert(spec_parse(s) == Some(v));
}

/// Reads a whole string as a non-negative base-10 numeral, or nothing when it
/// is empty, holds a non-digit, or overflows `usize`.
fn parse_number(s: &str) -> (r: Option<usize>)
    ensures
        match r {
            Some(v) => is_number_token(s@) && v == dec_value(s@),
            None => !is_number_token(s@),
        },
{
    let n = s.unicode_len();
    if n == 0 {
        return None;
    }
    let mut value: usize = 0;
    let mut i: usize = 0;
    while i < n
        invariant
            0 <= i <= n,
            n == s@.len(),
            all_digits(s@.subrange(0, i as int)),
            value == dec_value(s@.subrange(0, i as int)),
        decreases n - i,
    {
        let c = s.get_char(i);
        let u = c as u32;
        if u < 48 || u > 57 {
            proof {
                assert(all_digits(s@) ==> is_digit(s@[i as int]));
            }
            return None;
        }
        let d = (u - 48) as usize;
        let ghost p = s@.subrange(0, i as int);
        let ghost q = s@.subrange(0, i as int + 1);
        proof {
            assert(q.drop_last() =~= p);
            assert(q.last() == s@[i as int]);
            assert(dec_value(q) == dec_value(p) * 10 + digit_val(s@[i as int]));
        }
        if value > usize::MAX / 10 || (value == usize::MAX / 10 && d > usize::MAX % 10) {
            proof {
                assert(dec_value(q) > usize::MAX as int);
                if all_digits(s@) {
                    lemma_dec_value_prefix_le(s@, i as int + 1);
                }
            }
            return None;
        }
        value = value * 10 + d;
        i = i + 1;
    }
    proof {
        assert(s@.subrange(0, n as int) =~= s@);
    }
    Some(value)
}

/// Finds the first space at or after `from`.
fn find_space(s: &str, from: usize) -> (r: Option<usize>)
    requires
        from <= s@.len(),
    ensures
        match r {
            Some(i) => from <= i < s@.len() && first_space_at(s@, from as int) == Some(i as int),
            None => first_space_at(s@, from as int) is None,
        },
{
    let n = s.unicode_len();
    let mut i: usize = from;
    while i < n
        invariant
            from <= i <= n,
            n == s@.len(),
            first_space_at(s@, from as int) == first_space_at(s@, i as int),
        decreases n - i,
    {
        if s.get_char(i) == ' ' {
            return Some(i);
        }
        i = i + 1;
    }
    None
}

/// Parses a build display name into a change descriptor, exactly as the
/// grammar (`spec_parse`) reads it: the result is the descriptor's value on a
/// well-formed name and `MalformedDescriptor` on any other input.
pub fn parse_descriptor(s: &str) -> (r: Result<ChangeDescriptor, ParseError>)
    ensures
        r matches Ok(d) ==> spec_parse(s@) == Some(d@),
        r matches Err(_) ==> spec_parse(s@) is None,
{
    let n = s.unicode_len();
    if n == 0 {
        return Err(ParseError::MalformedDescriptor);
    }
    if s.get_char(0) != '#' {
        return Err(ParseError::MalformedDescriptor);
    }
    let e1 = match find_space(s, 1) {
        Some(i) => i,
        None => {
            return Err(ParseError::MalformedDescriptor);
        },
    };
    let t1 = s.substring_char(1, e1);
    let e2 = match find_space(s, e1 + 1) {
        Some(i) => i,
        None => {
            return Err(ParseError::MalformedDescriptor);
        },
    };
    let t2 = s.substring_char(e1 + 1, e2);
    let e3 = match find_space(s, e2 + 1) {
        Some(i) => i,
        None => {
            return Err(ParseError::MalformedDescriptor);
        },
    };
    let t3 = s.substring_char(e2 + 1, e3);
    let e4 = match find_space(s, e3 + 1) {
        Some(i) => i,
        None => {
            return Err(ParseError::MalformedDescriptor);
        },
    };
    let t4 = s.substring_char(e3 + 1, e4);
    let e5 = match find_space(s, e4 + 1) {
        Some(i) => i,
        None => {
            return Err(ParseError::MalformedDescriptor);
        },
    };
    let t5 = s.substring_char(e4 + 1, e5);
    let author = s.substring_char(e5 + 1, n);
    let sequence_number = match parse_number(t1) {
        Some(v) => v,
        None => {
            return Err(ParseError::MalformedDescriptor);
        },
    };
    let change_id = match parse_number(t4) {
        Some(v) => v,
        None => {
            return Err(ParseError::MalformedDescriptor);
        },
    };
    let revision = match parse_number(t5) {
        Some(v) => v,
        None => {
            return Err(ParseError::MalformedDescriptor);
        },
    };
    let d = ChangeDescriptor {
        sequence_number,
        repository: t2.to_owned(),
        branch: t3.to_owned(),
        change_id,
        revision,
        author: author.to_owned(),
    };
    Ok(d)
}

/// The one-character string for a decimal digit value.
fn digit_str(d: usize) -> (s: &'static str)
    requires
        d < 10,
    ensures
        s@ == seq![digit_char(d as int)],
{
    if d == 0 {
        proof {
            reveal_strlit("0");
            assert("0"@ =~= seq![digit_char(0)]);
        }
        "0"
    } else if d == 1 {
        proof {
            reveal_strlit("1");
            assert("1"@ =~= seq![digit_char(1)]);
        }
        "1"
    } else if d == 2 {
        proof {
            reveal_strlit("2");
            assert("2"@ =~= seq![digit_char(2)]);
        }
        "2"
    } else if d == 3 {
        proof {
            reveal_strlit("3");
            assert("3"@ =~= seq![digit_char(3)]);
        }
        "3"
    } else if d == 4 {
        proof {
            reveal_strlit("4");
            assert("4"@ =~= seq![digit_char(4)]);
        }
        "4"
    } else if d == 5 {
        proof {
            reveal_strlit("5");
            assert("5"@ =~= seq![digit_char(5)]);
        }
        "5"
    } else if d == 6 {
        proof {
            reveal_strlit("6");
            assert("6"@ =~= seq![digit_char(6)]);
        }
        "6"
    } else if d == 7 {
        proof {
            reveal_strlit("7");
            assert("7"@ =~= seq![digit_char(7)]);
        }
        "7"
    } else if d == 8 {
        proof {
            reveal_strlit("8");
            assert("8"@ =~= seq![digit_char(8)]);
        }
        "8"
    } else {
        proof {
            reveal_strlit("9");
            assert("9"@ =~= seq![digit_char(9)]);
        }
        "9"
    }
}

/// Writes a number as its canonical base-10 numeral.
fn format_number(n: usize) -> (s: String)
    ensures
        s@ == dec_digits(n as int),
    decreases n,
{
    if n < 10 {
        digit_str(n).to_owned()
    } else {
        let mut s = format_number(n / 10);
        s.append(digit_str(n % 10));
        proof {
            assert(s@ =~= dec_digits((n / 10) as int).push(digit_char((n % 10) as int)));
        }
        s
    }
}

/// Writes a descriptor as the display name that carries it, exactly as
/// `spec_format` lays it out. Parsing the result gives the descriptor back
/// (`lemma_format_parse_round_trip`).
pub fn format_descriptor(d: &ChangeDescriptor) -> (s: String)
    ensures
        s@ == spec_format(d@),
{
    proof {
        reveal_strlit("#");
        reveal_strlit(" ");
    }
    let mut s = "#".to_owned();
    s.append(format_number(d.sequence_number).as_str());
    s.append(" ");
    s.append(d.repository.as_str());
    s.append(" ");
    s.append(d.branch.as_str());
    s.append(" ");
    s.append(format_number(d.change_id).as_str());
    s.append(" ");
    s.append(format_number(d.revision).as_str());
    s.append(" ");
    s.append(d.author.as_str());
    proof {
        assert(s@ =~= spec_format(d@));
    }
    s
}

} // verus!
